use eb::grid::pack_grid;
use eb::text::base_name;
use eb::text::wrap_text;

fn cells(names: &[&str]) -> Vec<String> {
    names.iter().map(|s| s.to_string()).collect()
}

#[test]
fn grid_single_row_when_everything_fits() {
    let c = cells(&["a", "bb", "ccc"]);
    let lines = pack_grid(&c, Some(10), 2, false);
    assert_eq!(lines, vec!["a  bb  ccc".to_string()]);
    let lines = pack_grid(&c, Some(10), 2, true);
    assert_eq!(lines, vec!["a  bb  ccc".to_string()]);
}

#[test]
fn grid_two_columns_down_direction() {
    // Column-major: cells run down the first column, then the next.
    let c = cells(&["a", "bb", "ccc"]);
    let lines = pack_grid(&c, Some(9), 2, false);
    assert_eq!(lines, vec!["a   ccc".to_string(), "bb".to_string()]);
}

#[test]
fn grid_two_columns_across_direction() {
    // Row-major: cells run left to right, then the next row.
    let c = cells(&["a", "bb", "ccc"]);
    let lines = pack_grid(&c, Some(9), 2, true);
    assert_eq!(lines, vec!["a    bb".to_string(), "ccc".to_string()]);
}

#[test]
fn grid_order_preserved_across() {
    let c = cells(&["1", "2", "3", "4"]);
    let lines = pack_grid(&c, Some(40), 2, true);
    assert_eq!(lines, vec!["1  2  3  4".to_string()]);
}

#[test]
fn grid_falls_back_to_one_per_line() {
    let c = cells(&["a", "bb", "ccc"]);
    let lines = pack_grid(&c, Some(1), 2, false);
    assert_eq!(lines, cells(&["a", "bb", "ccc"]));
    let lines = pack_grid(&c, None, 2, false);
    assert_eq!(lines, cells(&["a", "bb", "ccc"]));
}

#[test]
fn grid_empty_input() {
    let c: Vec<String> = Vec::new();
    assert!(pack_grid(&c, Some(80), 2, false).is_empty());
    assert!(pack_grid(&c, None, 2, true).is_empty());
}

#[test]
fn grid_same_input_same_output() {
    let c = cells(&["alpha", "beta", "gamma", "delta", "epsilon"]);
    let once = pack_grid(&c, Some(24), 2, false);
    let twice = pack_grid(&c, Some(24), 2, false);
    assert_eq!(once, twice);
}

#[test]
fn wrap_cuts_after_width() {
    assert_eq!(wrap_text("abcdef", 4), vec!["abcd".to_string(), "ef".to_string()]);
    assert_eq!(wrap_text("abc", 3), vec!["abc".to_string()]);
    assert_eq!(wrap_text("", 3), vec!["".to_string()]);
    assert_eq!(
        wrap_text("abcdefgh", 3),
        vec!["abc".to_string(), "def".to_string(), "gh".to_string()]
    );
}

#[test]
fn base_name_takes_the_last_component() {
    assert_eq!(base_name("a/b/c.txt"), "c.txt");
    assert_eq!(base_name("name"), "name");
    assert_eq!(base_name("dir/"), "");
    assert_eq!(base_name("./x"), "x");
}
