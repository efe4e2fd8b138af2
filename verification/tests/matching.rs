use string_matching::automaton;
use string_matching::knuth_morris_pratt;

fn chars(s: &str) -> Vec<char> {
    s.chars().collect()
}

fn automaton_starts(pattern: &str, alphabet: &str, text: &str) -> Vec<usize> {
    let p = chars(pattern);
    let a = chars(alphabet);
    let t = chars(text);
    let matcher = automaton::Matcher::new(&a, &p, &t);
    let mut iter = matcher.iter();
    let mut starts = Vec::new();
    while let Some((start, end)) = iter.next() {
        assert_eq!(end - start, p.len());
        starts.push(start);
    }
    starts
}

fn kmp_starts(pattern: &str, alphabet: &str, text: &str) -> Vec<usize> {
    let p = chars(pattern);
    let a = chars(alphabet);
    let t = chars(text);
    let matcher = knuth_morris_pratt::Matcher::new(&a, &p, &t);
    let mut iter = matcher.iter();
    let mut starts = Vec::new();
    while let Some((start, end)) = iter.next() {
        assert_eq!(end - start, p.len());
        starts.push(start);
    }
    starts
}

fn both_starts(pattern: &str, alphabet: &str, text: &str, expected: &[usize]) {
    let from_automaton = automaton_starts(pattern, alphabet, text);
    let from_kmp = kmp_starts(pattern, alphabet, text);
    assert_eq!(from_automaton, expected, "automaton: searching for {} in {}", pattern, text);
    assert_eq!(from_kmp, expected, "kmp: searching for {} in {}", pattern, text);
    assert_eq!(from_automaton, from_kmp);
}

#[test]
fn aaa() {
    both_starts("aaa", "a", "aaa", &[0]);
}

#[test]
fn aaaa() {
    both_starts("aaa", "a", "aaaa", &[0, 1]);
}

#[test]
fn aa() {
    both_starts("aaa", "a", "aa", &[]);
}

#[test]
fn abab() {
    both_starts("abab", "ab", "abababab", &[0, 2, 4]);
}

#[test]
fn greek1() {
    both_starts("δ", "αβγδ", "αβαβγβαβαβαβαβγ", &[]);
}

#[test]
fn greek2() {
    both_starts("γδ", "αβγδ", "αβαβγβαβαβαβαβγ", &[]);
}

#[test]
fn greek3() {
    both_starts("αβ", "αβγδ", "αβαβγβαβαβαβαβγ", &[0, 2, 6, 8, 10, 12]);
}

#[test]
fn greek4() {
    both_starts("αβαβ", "αβγδ", "αβαβγβαβαβαβαβγ", &[0, 6, 8, 10]);
}

#[test]
fn numbers1() {
    both_starts("0", "7890", "78787999997878787879", &[]);
}

#[test]
fn numbers2() {
    both_starts("9", "7890", "78787999997878787879", &[5, 6, 7, 8, 9, 19]);
}

#[test]
fn numbers3() {
    both_starts("787", "7890", "78787999997878787879", &[0, 2, 10, 12, 14, 16]);
}

#[test]
fn numbers4() {
    both_starts("99", "7890", "78787999997878787879", &[5, 6, 7, 8]);
}

#[test]
fn numbers5() {
    both_starts("879", "7890", "78787999997878787879", &[3, 17]);
}

#[test]
fn numbers6() {
    both_starts("978", "7890", "78787999997878787879", &[9]);
}

#[test]
fn xyzw1() {
    both_starts("W", "XYZW", "XYXYYXYYYXYYYYXYXYXYXZYXZ", &[]);
}

#[test]
fn xyzw2() {
    both_starts("YW", "XYZW", "XYXYYXYYYXYYYYXYXYXYXZYXZ", &[]);
}

#[test]
fn xyzw3() {
    both_starts("YX", "XYZW", "XYXYYXYYYXYYYYXYXYXYXZYXZ", &[1, 4, 8, 13, 15, 17, 19, 22]);
}

#[test]
fn xyzw4() {
    both_starts("YY", "XYZW", "XYXYYXYYYXYYYYXYXYXYXZYXZ", &[3, 6, 7, 10, 11, 12]);
}

#[test]
fn xyzw5() {
    both_starts("XYX", "XYZW", "XYXYYXYYYXYYYYXYXYXYXZYXZ", &[0, 14, 16, 18]);
}

#[test]
fn xyzw6() {
    both_starts("XYXY", "XYZW", "XYXYYXYYYXYYYYXYXYXYXZYXZ", &[0, 14, 16]);
}

#[test]
fn empty_text() {
    both_starts("aaa", "a", "", &[]);
}

#[test]
fn empty_pattern() {
    // The degenerate convention: one zero-length match at every position,
    // text length plus one in all.
    both_starts("", "abc", "abcab", &[0, 1, 2, 3, 4, 5]);
}

#[test]
fn empty_pattern_empty_text() {
    both_starts("", "a", "", &[0]);
}

#[test]
fn pattern_longer_than_text() {
    both_starts("XYXYX", "XY", "XYX", &[]);
}

#[test]
fn whole_text_is_the_match() {
    both_starts("XYZ", "XYZ", "XYZ", &[0]);
}

#[test]
fn overlapping_runs() {
    both_starts("aa", "ab", "aaabaa", &[0, 1, 4]);
}

#[test]
fn spans_are_half_open() {
    let p = chars("787");
    let a = chars("7890");
    let t = chars("78787999997878787879");
    let matcher = automaton::Matcher::new(&a, &p, &t);
    let mut iter = matcher.iter();
    let mut spans = Vec::new();
    while let Some(span) = iter.next() {
        spans.push(span);
    }
    assert_eq!(spans, vec![(0, 3), (2, 5), (10, 13), (12, 15), (14, 17), (16, 19)]);
}

#[test]
fn restartable_iteration() {
    let p = chars("aa");
    let a = chars("a");
    let t = chars("aaaa");
    let matcher = knuth_morris_pratt::Matcher::new(&a, &p, &t);
    let mut first = matcher.iter();
    assert_eq!(first.next(), Some((0, 2)));
    // A second cursor starts over from scratch.
    let mut second = matcher.iter();
    assert_eq!(second.next(), Some((0, 2)));
    assert_eq!(second.next(), Some((1, 3)));
    assert_eq!(second.next(), Some((2, 4)));
    assert_eq!(second.next(), None);
    assert_eq!(second.next(), None);
    assert_eq!(first.next(), Some((1, 3)));
}
