//! Tests for the three filename matchers: substring, extension list and
//! regular expression.

use simple_tools::matching::{match_extension, match_regex, match_simple};

// ==================== Simple substring matching ====================

/// Tests simple substring matching (case insensitive).
#[test]
fn test_match_simple_case_insensitive() {
    let result = match_simple("MyFile.txt", "file", false);
    assert_eq!(result, Some(vec![(2, 6)]));
}

/// Tests simple substring matching (case sensitive, no match).
#[test]
fn test_match_simple_case_sensitive_no_match() {
    let result = match_simple("MyFile.txt", "file", true);
    assert_eq!(result, None);
}

/// Tests simple substring matching (case sensitive, with match).
#[test]
fn test_match_simple_case_sensitive_match() {
    let result = match_simple("MyFile.txt", "File", true);
    assert_eq!(result, Some(vec![(2, 6)]));
}

/// Tests simple matching finds multiple occurrences.
#[test]
fn test_match_simple_multiple_matches() {
    let result = match_simple("test_test.txt", "test", false);
    assert_eq!(result, Some(vec![(0, 4), (5, 9)]));
}

/// Tests simple matching returns None when no match.
#[test]
fn test_match_simple_no_match() {
    let result = match_simple("document.pdf", "xyz", false);
    assert_eq!(result, None);
}

/// Tests that the scan resumes past each hit: occurrences never overlap.
#[test]
fn test_match_simple_occurrences_do_not_overlap() {
    let result = match_simple("aaa", "aa", false);
    assert_eq!(result, Some(vec![(0, 2)]));

    let result = match_simple("aaaa", "aa", false);
    assert_eq!(result, Some(vec![(0, 2), (2, 4)]));
}

// ==================== Extension matching ====================

/// Tests extension matching with leading dot.
#[test]
fn test_match_extension_single_with_dot() {
    let result = match_extension("file.txt", ".txt", false);
    assert!(result.is_some());
    let ranges = result.unwrap();
    assert_eq!(ranges, vec![(4, 8)]);
}

/// Tests extension matching without leading dot.
#[test]
fn test_match_extension_single_without_dot() {
    let result = match_extension("file.txt", "txt", false);
    assert!(result.is_some());
}

/// Tests extension matching with multiple extensions.
#[test]
fn test_match_extension_multiple() {
    let result = match_extension("file.log", ".txt, .log, .tmp", false);
    assert!(result.is_some());
}

/// Tests extension matching returns None when no match.
#[test]
fn test_match_extension_no_match() {
    let result = match_extension("file.doc", ".txt, .log", false);
    assert_eq!(result, None);
}

/// Tests extension matching is case insensitive.
#[test]
fn test_match_extension_case_insensitive() {
    let result = match_extension("file.TXT", ".txt", false);
    assert!(result.is_some());
}

/// Tests extension matching respects case sensitivity.
#[test]
fn test_match_extension_case_sensitive() {
    let result = match_extension("file.TXT", ".txt", true);
    assert_eq!(result, None);

    let result = match_extension("file.TXT", ".TXT", true);
    assert!(result.is_some());
}

// ==================== Regex matching ====================

/// Tests regex matching finds digit sequences.
#[test]
fn test_match_regex_digits() {
    let result = match_regex("file123.txt", r"\d+", false);
    assert!(result.is_ok());
    assert_eq!(result.unwrap(), Some(vec![(4, 7)]));
}

/// Tests regex matching with invalid pattern returns error.
#[test]
fn test_match_regex_invalid_pattern() {
    let result = match_regex("file.txt", r"[invalid", false);
    assert!(result.is_err());
}

/// Tests regex matching is case insensitive by default.
#[test]
fn test_match_regex_case_insensitive() {
    let result = match_regex("MyFile.txt", "myfile", false);
    assert!(result.is_ok());
    assert!(result.unwrap().is_some());
}

/// Tests regex matching respects case sensitivity.
#[test]
fn test_match_regex_case_sensitive() {
    let result = match_regex("MyFile.txt", "myfile", true);
    assert!(result.is_ok());
    assert_eq!(result.unwrap(), None);
}

/// Tests regex matching with multiple matches.
#[test]
fn test_match_regex_multiple_matches() {
    let result = match_regex("abc123def456.txt", r"\d+", false);
    assert!(result.is_ok());
    assert_eq!(result.unwrap(), Some(vec![(3, 6), (9, 12)]));
}

/// Tests regex returns None when no match.
#[test]
fn test_match_regex_no_match() {
    let result = match_regex("abcdef.txt", r"\d+", false);
    assert!(result.is_ok());
    assert_eq!(result.unwrap(), None);
}
