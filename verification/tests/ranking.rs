use guitar_tab_generator::box_fingering::BoxFingering;
use guitar_tab_generator::ranking::rank_paths;

fn path(finger: u8) -> Vec<Vec<BoxFingering>> {
    vec![
        vec![BoxFingering { line_idx: 0, position: 3, finger, string: 1 }],
        vec![BoxFingering { line_idx: 1, position: 3, finger: 2, string: 2 }],
    ]
}

#[test]
fn paths_are_ranked_by_cost() {
    let found = vec![(path(0), 10), (path(1), 8), (path(2), 12), (path(3), 8), (path(4), 9)];
    assert_eq!(
        rank_paths(&found, 5),
        vec![(path(1), 8), (path(3), 8), (path(4), 9), (path(0), 10), (path(2), 12)]
    );
    assert_eq!(rank_paths(&found, 9), rank_paths(&found, 5));
    assert_eq!(rank_paths(&found, 2), vec![(path(1), 8), (path(3), 8)]);
    assert_eq!(rank_paths(&found, 0), vec![]);
    assert_eq!(rank_paths(&vec![], 3), vec![]);
}

#[test]
fn a_path_is_ranked_once() {
    let found = vec![(path(0), 10), (path(1), 8), (path(0), 7), (path(1), 8), (path(2), 10)];
    assert_eq!(rank_paths(&found, 5), vec![(path(1), 8), (path(0), 10), (path(2), 10)]);
}
