use perch::assets::{all, Icons};

#[test]
fn the_icons_the_widgets_actually_reach_are_present() {
    for path in [
        "icons/chevron-down.svg",
        "icons/eye.svg",
        "icons/circle-x.svg",
    ] {
        assert!(
            Icons.load(path).is_some(),
            "{path} resolves to nothing"
        );
    }
}

#[test]
fn every_icon_parses_as_svg() {
    for (path, svg) in all() {
        assert!(svg.contains("viewBox"), "{path} has no viewBox to scale by");
        assert!(
            svg.contains("stroke-width"),
            "{path} has no stroke, so it would rasterise to nothing"
        );
    }
}

#[test]
fn an_unknown_path_is_simply_absent() {
    assert!(Icons.load("icons/not-a-real-icon.svg").is_none());
    assert!(Icons.load("").is_none());
}

#[test]
fn each_icon_is_found_at_its_own_path() {
    assert_eq!(all().len(), 11);
    for (path, svg) in all() {
        assert_eq!(Icons.load(path), Some(svg));
    }
}

#[test]
fn icons_are_listed_by_the_start_of_their_path() {
    assert_eq!(Icons.list("icons/chevron-").len(), 4);
    assert_eq!(Icons.list("").len(), 11);
    assert_eq!(Icons.list("icons/eye.svg"), vec!["icons/eye.svg".to_string()]);
    assert!(Icons.list("fonts/").is_empty());
}
