use guitar::chunk::LaneRef;
use guitar::layers::{is_empty, LayerToken, LayersContext, TokenColor};

fn line_text(tokens: &[LayerToken<'_>]) -> String {
    tokens.iter().map(|token| token.symbol).collect()
}

fn lane_of(token: &LayerToken<'_>) -> Option<usize> {
    match token.color {
        TokenColor::Lane(lane) => Some(lane.index),
        _ => None,
    }
}

#[test]
fn bake_preserves_sparse_layer_priority_and_lane_colors() {
    let mut layers = LayersContext::new();
    layers.reserve(4);

    layers.pipe("|", 0);
    layers.pipe("|", 1);
    layers.merge_at(1, "-", 1);
    layers.commit_at(2, "o", 2);

    let mut tokens = Vec::new();
    layers.bake(&mut tokens);

    assert_eq!(line_text(&tokens), "|-o");
    assert_eq!(lane_of(&tokens[0]), Some(0));
    assert_eq!(lane_of(&tokens[1]), Some(1));
    assert_eq!(lane_of(&tokens[2]), Some(2));
}

#[test]
fn empty_layer_tokens_are_ascii_spaces_only() {
    assert!(is_empty(""));
    assert!(is_empty(" "));
    assert!(is_empty("  "));
    assert!(!is_empty("\t"));
    assert!(!is_empty("·"));
}

#[test]
fn bake_pads_gaps_and_drops_trailing_blanks() {
    let mut layers = LayersContext::new();
    layers.commit_at(3, "o", 3);
    layers.pipe("|", 0);
    layers.pipe(" ", 1);
    layers.pipe("  ", 2);
    layers.pipe(" ", 3);
    layers.pipe(" ", 4);
    let mut tokens = Vec::new();
    layers.bake(&mut tokens);
    assert_eq!(tokens.len(), 4);
    assert_eq!(tokens[0].symbol, "|");
    assert!(is_empty(tokens[1].symbol));
    assert!(is_empty(tokens[2].symbol));
    assert_eq!(tokens[3].symbol, "o");
    assert_eq!(lane_of(&tokens[3]), Some(3));
}

#[test]
fn flattened_lanes_mark_their_tokens() {
    let mut layers = LayersContext::new();
    layers.set_flattened_lanes(&[0, 1]);
    layers.commit("o", 1);
    layers.commit_ref("x", LaneRef::new(5, false));
    let mut tokens = Vec::new();
    layers.bake(&mut tokens);
    match tokens[0].color {
        TokenColor::Lane(lane) => assert!(lane.is_flattened && lane.index == 1),
        _ => panic!("lane colour expected"),
    }
    match tokens[1].color {
        TokenColor::Lane(lane) => assert!(!lane.is_flattened && lane.index == 5),
        _ => panic!("lane colour expected"),
    }
}
