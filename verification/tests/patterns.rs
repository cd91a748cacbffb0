use fsearch_core::match_engine::match_text_pcre2;
use fsearch_core::pattern::{
    CompileError, CompiledPattern, Engine, Matcher, Pattern, Pcre2Compiled, StrMatcher,
};
use fsearch_core::pool::{PatternPool, MAX_IDLE_PER_KEY};

#[test]
fn engine_literal_match() {
    let mut pool = PatternPool::new();
    let res = match_text_pcre2(&mut pool, "foo", b"this is foo bar", false).unwrap();
    assert!(res.is_some());
    let caps = res.unwrap();
    assert_eq!(caps[0], (8, 11));
}

#[test]
fn engine_regex_match() {
    let mut pool = PatternPool::new();
    let res = match_text_pcre2(&mut pool, "ab([0-9]+)", b"xxab123yy", true).unwrap();
    assert!(res.is_some());
    let caps = res.unwrap();
    assert_eq!(caps[0], (2, 7));
    assert_eq!(caps[1], (4, 7));
}

#[test]
fn engine_escapes_literals_and_reports_errors() {
    let mut pool = PatternPool::new();
    assert_eq!(match_text_pcre2(&mut pool, "a.b", b"axb", false), Ok(None));
    assert_eq!(match_text_pcre2(&mut pool, "a.b", b"xa.b", false), Ok(Some(vec![(1, 4)])));
    assert_eq!(match_text_pcre2(&mut pool, "a(b", b"a(b", true), Err(CompileError::InvalidPattern));
    assert_eq!(match_text_pcre2(&mut pool, "a(b", b"a(b", false), Ok(Some(vec![(0, 3)])));
    // the pattern went back to the pool after each match
    assert_eq!(pool.idle_len(), 2);
}

#[test]
fn match_plain_substring() {
    let m = Matcher::new("foo", false).unwrap();
    assert!(m.is_match(b"this is foo bar"));
    let ranges = m.captures_ranges(b"this is foo bar").unwrap();
    assert_eq!(ranges[0], (8, 11));
}

#[test]
fn match_regex_with_group() {
    let m = Matcher::new(r"(ab)([0-9]+)", true).unwrap();
    assert!(m.is_match(b"xxab123yy"));
    let ranges = m.captures_ranges(b"xxab123yy").unwrap();
    assert_eq!(ranges[0], (2, 7));
    assert_eq!(ranges[1], (2, 4));
    assert_eq!(ranges[2], (4, 7));
}

#[test]
fn matcher_escapes_plain_text() {
    let m = Matcher::new("a.b", false).unwrap();
    assert_eq!(m.as_str(), "a\\.b");
    assert!(m.is_match(b"xa.by"));
    assert!(!m.is_match(b"xaxby"));
    let all = Matcher::new("\\.+*?()|[]{}^$#&-~", false).unwrap();
    assert_eq!(all.as_str(), regex::escape("\\.+*?()|[]{}^$#&-~"));
    assert!(all.is_match("\\.+*?()|[]{}^$#&-~".as_bytes()));
    assert_eq!(Matcher::new("a(b", true).err(), Some(CompileError::InvalidPattern));
    assert!(Matcher::new("a(b", false).is_ok());
}

#[test]
fn unmatched_group_is_reported_as_empty_range() {
    let m = Matcher::new("(a)|(b)", true).unwrap();
    assert_eq!(m.captures_ranges(b"xxb"), Some(vec![(2, 3), (0, 0), (2, 3)]));
    assert_eq!(m.captures_ranges(b"zzz"), None);
    let p = Pcre2Compiled::new("(a)|(b)").unwrap();
    assert_eq!(p.captures_ranges(b"xxb"), Some(vec![(2, 3), (0, 0), (2, 3)]));
    assert_eq!(p.captures_ranges(b"zzz"), None);
}

#[test]
fn pcre2_match_simple() {
    let c = Pcre2Compiled::new("ab[0-9]+").unwrap();
    assert!(c.is_match(b"xxab123yy"));
    let caps = c.captures_ranges(b"xxab123yy").unwrap();
    assert_eq!(caps[0], (2, 7));
}

#[test]
fn pcre2_rejects_invalid_pattern() {
    assert_eq!(Pcre2Compiled::new("a(b").err(), Some(CompileError::InvalidPattern));
    let c = Pcre2Compiled::new("a+").unwrap();
    assert_eq!(c.as_str(), "a+");
    assert!(!c.is_match(b"bbb"));
}

#[test]
fn str_matcher_matches_strings() {
    let m = StrMatcher::new("a+b").unwrap();
    assert!(m.is_match("xxaab"));
    assert!(!m.is_match("a+b"));
    assert_eq!(StrMatcher::new("a(b").err(), Some(CompileError::InvalidPattern));
}

#[test]
fn pattern_of_either_engine() {
    let p = Pattern::compile(Engine::Pcre2, "a(?=b)").unwrap();
    assert_eq!(p.engine(), Engine::Pcre2);
    assert_eq!(p.as_str(), "a(?=b)");
    assert!(p.is_match(b"ab"));
    assert!(!p.is_match(b"ac"));
    // the regex crate has no look-ahead
    assert_eq!(Pattern::compile(Engine::Regex, "a(?=b)").err(), Some(CompileError::InvalidPattern));
    let r = Pattern::compile(Engine::Regex, "a.c").unwrap();
    assert_eq!(r.engine(), Engine::Regex);
    assert_eq!(r.captures_ranges(b"xabc"), Some(vec![(1, 4)]));
}

#[test]
fn pool_hands_out_the_pattern_asked_for() {
    let mut pool = PatternPool::new();
    let foo = pool.acquire_pcre2("foo").unwrap();
    pool.release(foo);
    assert_eq!(pool.idle_len(), 1);
    // another text does not get the idle pattern
    let bar = pool.acquire_pcre2("bar").unwrap();
    assert_eq!(bar.as_str(), "bar");
    assert!(bar.is_match(b"a bar"));
    assert!(!bar.is_match(b"a foo"));
    assert_eq!(pool.idle_len(), 1);
    // nor does the same text under the other engine
    let other = pool.acquire(Engine::Regex, "foo").unwrap();
    assert_eq!(other.engine(), Engine::Regex);
    assert_eq!(pool.idle_len(), 1);
    // the same key does
    let again = pool.acquire(Engine::Pcre2, "foo").unwrap();
    assert_eq!(again.as_str(), "foo");
    assert_eq!(pool.idle_len(), 0);
    assert_eq!(pool.acquire_pcre2("a(b").err(), Some(CompileError::InvalidPattern));
}

#[test]
fn pool_keeps_a_bounded_number_of_idle_patterns() {
    let mut pool = PatternPool::new();
    let mut held = Vec::new();
    for _ in 0..MAX_IDLE_PER_KEY + 3 {
        held.push(pool.acquire_pcre2("x").unwrap());
    }
    for h in held {
        pool.release(h);
    }
    assert_eq!(pool.idle_len(), MAX_IDLE_PER_KEY);
    let y = pool.acquire_pcre2("y").unwrap();
    pool.release(y);
    assert_eq!(pool.idle_len(), MAX_IDLE_PER_KEY + 1);
}
