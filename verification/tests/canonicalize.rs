use canontext::canon::canonicalize;
use canontext::canon::Tables;

fn chars(s: &str) -> Vec<char> {
    s.chars().collect()
}

fn pairs(entries: &[(&str, &str)]) -> Vec<(Vec<char>, Vec<char>)> {
    entries.iter().map(|(f, t)| (chars(f), chars(t))).collect()
}

fn canon(s: &str) -> Vec<u8> {
    canonicalize(s, &Tables::new())
}

fn canon_str(s: &str) -> String {
    String::from_utf8(canon(s)).unwrap()
}

#[test]
fn empty_input() {
    assert_eq!(canon(""), b"".to_vec());
}

#[test]
fn plain_ascii_unchanged() {
    assert_eq!(canon("hello world"), b"hello world".to_vec());
}

#[test]
fn determinism_repeated_calls() {
    let input = "a\u{2014}b & c  \u{201C}d\u{201D}";
    assert_eq!(canon(input), canon(input));
    assert_eq!(canon(input), canon(input));
}

#[test]
fn ampersand_folding() {
    assert_eq!(canon("foo&bar"), b"foo and bar".to_vec());
}

#[test]
fn ampersand_variants() {
    assert_eq!(canon("a\u{FF06}b"), b"a and b".to_vec());
    assert_eq!(canon("a\u{FE60}b"), b"a and b".to_vec());
}

#[test]
fn whitespace_collapsing() {
    assert_eq!(canon("Hello   world"), b"Hello world".to_vec());
    assert_eq!(canon("  lead/trail  "), b"lead/trail".to_vec());
}

#[test]
fn specialized_whitespace_run_becomes_one_space() {
    assert_eq!(canon("a\r\n\tb"), b"a b".to_vec());
    assert_eq!(canon("a\u{00A0}\u{3000}b"), b"a b".to_vec());
    assert_eq!(canon("a\u{200B}b"), b"a b".to_vec());
}

#[test]
fn full_width_folding() {
    let input = "\u{FF21}";
    let out = canon_str(input);
    assert!(out.contains('A'));
    assert_eq!(out, "A");
    assert_eq!(canon_str("\u{FF01}"), "!");
}

#[test]
fn dash_folding() {
    assert_eq!(canon("a\u{2014}\u{2014}b"), b"a-b".to_vec());
}

#[test]
fn mixed_dash_and_hyphen_runs_collapse() {
    assert_eq!(canon("a-\u{2013}-b"), b"a-b".to_vec());
}

#[test]
fn quote_folding() {
    assert_eq!(canon("\u{201C}hello\u{201D}"), b"'hello'".to_vec());
    assert_eq!(canon("\u{AB}x\u{BB}"), b"'x'".to_vec());
}

#[test]
fn ellipsis_folding() {
    assert_eq!(canon("wait....."), b"wait...".to_vec());
}

#[test]
fn ellipsis_character_becomes_three_dots() {
    assert_eq!(canon("a\u{2026}b"), b"a...b".to_vec());
}

#[test]
fn ellipsis_character_joins_adjacent_dots() {
    assert_eq!(canon("a\u{2026}.b"), b"a...b".to_vec());
}

#[test]
fn three_dots_stay() {
    assert_eq!(canon("a...b"), b"a...b".to_vec());
}

#[test]
fn fraction_slash_becomes_ascii_slash() {
    assert_eq!(canon("1\u{2044}2"), b"1/2".to_vec());
}

#[test]
fn whitespace_before_punctuation_deleted() {
    assert_eq!(canon("word ,"), b"word,".to_vec());
}

#[test]
fn whitespace_after_punctuation_deleted() {
    assert_eq!(canon("a! b"), b"a!b".to_vec());
}

#[test]
fn whitespace_around_punctuation_deleted() {
    assert_eq!(canon("a , b"), b"a,b".to_vec());
}

#[test]
fn whitespace_between_letters_collapses() {
    assert_eq!(canon("a \u{2002} b"), b"a b".to_vec());
}

#[test]
fn double_quote_is_punctuation_after_folding() {
    assert_eq!(canon("say \"hi\""), b"say'hi'".to_vec());
}

#[test]
fn idempotence_round_trip() {
    let inputs = [
        "foo&bar",
        "  Hello   world  ",
        "a\u{2014}\u{2014}b",
        "\u{201C}hello\u{201D}",
        "wait.....",
        "word , x  y",
        "a , b . c",
        "\u{FF21}\u{FF06}\u{FF0D}",
        "one \u{2026} two",
    ];
    for input in inputs {
        let once = canon(input);
        let again = canon(&String::from_utf8(once.clone()).unwrap());
        assert_eq!(again, once, "not idempotent on {:?}", input);
    }
}

#[test]
fn idempotence_multi_run() {
    let input = "a  ,  b  c   ! d";
    let once = canon(input);
    let again = canon(&String::from_utf8(once.clone()).unwrap());
    assert_eq!(again, once);
}

#[test]
fn nfkc_applied() {
    assert_eq!(canon("\u{FB01}sh"), b"fish".to_vec());
}

#[test]
fn table_substitution_order() {
    let mut tables = Tables::new();
    tables.cjk_punct_pairs = pairs(&[("aa", "X"), ("a", "Y")]);
    assert_eq!(canonicalize("aaa", &tables), b"XY".to_vec());

    let mut reversed = Tables::new();
    reversed.cjk_punct_pairs = pairs(&[("a", "Y"), ("aa", "X")]);
    assert_eq!(canonicalize("aaa", &reversed), b"YYY".to_vec());
}

#[test]
fn table_entry_replaces_all_occurrences() {
    let mut tables = Tables::new();
    tables.cjk_punct_pairs = pairs(&[("ab", "z")]);
    assert_eq!(canonicalize("abab", &tables), b"zz".to_vec());
}

#[test]
fn later_entry_sees_earlier_result() {
    let mut tables = Tables::new();
    tables.autocorrect_pairs = pairs(&[("x", "y"), ("y", "z")]);
    assert_eq!(canonicalize("x", &tables), b"z".to_vec());
}

#[test]
fn autocorrect_runs_before_emoji_table() {
    let mut tables = Tables::new();
    tables.autocorrect_pairs = pairs(&[("x", "y")]);
    tables.ascii_emoji_pairs = pairs(&[("x", "w"), ("y", "z")]);
    assert_eq!(canonicalize("x", &tables), b"z".to_vec());
}

#[test]
fn cjk_table_runs_before_full_width_folding() {
    let mut tables = Tables::new();
    tables.cjk_punct_pairs = pairs(&[("q", "\u{FF21}")]);
    assert_eq!(canonicalize("aqb", &tables), b"aAb".to_vec());
}

#[test]
fn dash_folding_runs_before_cjk_table() {
    let mut tables = Tables::new();
    tables.cjk_punct_pairs = pairs(&[("-", "=")]);
    assert_eq!(canonicalize("a\u{301C}b", &tables), b"a=b".to_vec());
}

// A lone Ogham space mark at the text's edge survives NFKC and is generic
// whitespace but neither specialized whitespace nor ASCII whitespace, so the
// first whitespace pass keeps it, the trim passes it, and the
// punctuation-aware pass collapses it to a leading ASCII space; only a
// second canonicalization trims that space.
#[test]
fn lone_exotic_edge_whitespace() {
    let once = canon("\u{1680}a");
    assert_eq!(once, b" a".to_vec());
    let again = canon(&String::from_utf8(once).unwrap());
    assert_eq!(again, b"a".to_vec());
}

#[test]
fn non_ascii_text_passes_through() {
    assert_eq!(canon("caf\u{E9}"), "caf\u{E9}".as_bytes().to_vec());
}
