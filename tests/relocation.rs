use plang::relocation::fill_in;

fn resolve(s: &str) -> String {
    fill_in(s.to_string()).ok().expect("well-formed placeholders")
}

#[test]
fn plain_text_is_kept() {
    assert_eq!(resolve("(module)"), "(module)");
    assert_eq!(resolve(""), "");
}

#[test]
fn distinct_names_get_words_in_first_encounter_order() {
    assert_eq!(resolve("~p~ ~q~ ~r~"), "0 4 8");
    assert_eq!(resolve("~r~ ~q~ ~p~ ~q~"), "0 4 8 4");
}

#[test]
fn relocation_is_deterministic() {
    let text = "a~x~b~y+4~c~x+8~";
    assert_eq!(resolve(text), resolve(text));
    assert_eq!(resolve(text), "a0b8c8");
}

#[test]
fn offsets_keep_their_difference() {
    let out = resolve("~s+4~ ~t~ ~u~ ~s+12~");
    let nums: Vec<i64> = out.split(' ').map(|x| x.parse().unwrap()).collect();
    assert_eq!(nums, vec![4, 4, 8, 12]);
    assert_eq!(nums[0] - nums[3], 4 - 12);
}

#[test]
fn offset_on_first_occurrence_counts() {
    assert_eq!(resolve("~a+8~ ~a~ ~b~"), "8 0 4");
}

#[test]
fn trailing_mark_is_dropped() {
    assert_eq!(resolve("a~"), "a");
    assert_eq!(resolve("a~b~"), "a0");
}

#[test]
fn empty_name_is_a_symbol_too() {
    assert_eq!(resolve("x~~y"), "x0y");
}

#[test]
fn malformed_offset_is_an_error() {
    assert!(fill_in("~s+x~".to_string()).is_err());
    assert!(fill_in("~s+~".to_string()).is_err());
    assert!(fill_in("~s+99999999999~".to_string()).is_err());
}

#[test]
fn largest_offset_is_accepted() {
    assert_eq!(resolve("~s+2147483647~"), "2147483647");
}
