use typograf_client::find_nth;
use typograf_client::find_nth_starting_from;
use typograf_client::front_matter_offset;

#[test]
fn find_nth_simple_case() {
    assert_eq!(Some(8), find_nth("foo bar baz", "baz", 1 as usize));
    assert_eq!(None, find_nth("foo bar baz", "baz", 2 as usize));
}

#[test]
fn find_nth_should_find_nothing_when_n_is_more_than_number_of_needles() {
    assert_eq!(
        None,
        find_nth("foobarbaz", "some-non-existing-needle", 1 as usize)
    );
}

#[test]
fn find_nth_should_find_a_needle_if_n_is_less_or_eq_than_number_of_needles() {
    assert_eq!(Some(0), find_nth("simple search", "s", 1 as usize));
    assert_eq!(Some(7), find_nth("simple search", "s", 2 as usize));
    assert_eq!(Some(12), find_nth("foo bar BAZ BAZ BAZ", "BAZ", 2 as usize));
    assert_eq!(Some(16), find_nth("foo bar BAZ BAZ BAZ", "BAZ", 3 as usize));
    assert_eq!(None, find_nth("foo bar BAZ BAZ BAZ", "BAZ", 4 as usize));
}

#[test]
fn find_nth_starting_from_skips_earlier_occurrences() {
    assert_eq!(Some(12), find_nth_starting_from("foo bar BAZ BAZ BAZ", "BAZ", 1, 9));
    assert_eq!(None, find_nth_starting_from("foo bar BAZ BAZ BAZ", "BAZ", 3, 9));
}

#[test]
fn find_nth_counts_character_positions_in_multibyte_text() {
    let haystack = "п р и вет мир";
    assert_eq!(Some(10), find_nth(haystack, "мир", 1));
    assert_eq!(Some(1), find_nth(haystack, " ", 1));
    assert_eq!(Some(3), find_nth(haystack, " ", 2));
}

#[test]
fn front_matter_offset_lands_after_second_delimiter() {
    let input = "+++\ntitle: x\n+++\nBody text";
    let offset = front_matter_offset(input, "+++");
    assert_eq!(offset, 16);
    assert_eq!(&input[..offset], "+++\ntitle: x\n+++");
}

#[test]
fn front_matter_offset_defaults_to_zero_without_a_delimiter_pair() {
    assert_eq!(0, front_matter_offset("no front matter here", "+++"));
    assert_eq!(0, front_matter_offset("+++\nonly one marker", "+++"));
}
