//! Tests for the diff and regex-highlight utilities.

use simple_tools::diff::{
    compute_diff, get_regex_highlights, has_capture_groups, DiffSegmentType, RegexSegment,
};

// ==================== compute_diff tests ====================

#[test]
fn test_compute_diff_simple_insert() {
    let result = compute_diff("abc", "abXc");
    assert_eq!(result.len(), 3);
    assert_eq!(result[0].segment_type, DiffSegmentType::Unchanged);
    assert_eq!(result[0].text, "ab");
    assert_eq!(result[1].segment_type, DiffSegmentType::Added);
    assert_eq!(result[1].text, "X");
    assert_eq!(result[2].segment_type, DiffSegmentType::Unchanged);
    assert_eq!(result[2].text, "c");
}

#[test]
fn test_compute_diff_simple_delete() {
    let result = compute_diff("abXc", "abc");
    assert_eq!(result.len(), 3);
    assert_eq!(result[0].segment_type, DiffSegmentType::Unchanged);
    assert_eq!(result[0].text, "ab");
    assert_eq!(result[1].segment_type, DiffSegmentType::Removed);
    assert_eq!(result[1].text, "X");
    assert_eq!(result[2].segment_type, DiffSegmentType::Unchanged);
    assert_eq!(result[2].text, "c");
}

#[test]
fn test_compute_diff_unchanged() {
    let result = compute_diff("hello", "hello");
    assert_eq!(result.len(), 1);
    assert_eq!(result[0].segment_type, DiffSegmentType::Unchanged);
    assert_eq!(result[0].text, "hello");
}

#[test]
fn test_compute_diff_complete_replacement() {
    let result = compute_diff("old", "new");
    // The diff may produce various segments; just check we have both removed and added
    let has_removed = result
        .iter()
        .any(|s| s.segment_type == DiffSegmentType::Removed);
    let has_added = result
        .iter()
        .any(|s| s.segment_type == DiffSegmentType::Added);
    assert!(has_removed);
    assert!(has_added);
}

#[test]
fn test_compute_diff_empty_strings() {
    let result = compute_diff("", "");
    assert!(result.is_empty());
}

#[test]
fn test_compute_diff_from_empty() {
    let result = compute_diff("", "abc");
    assert_eq!(result.len(), 1);
    assert_eq!(result[0].segment_type, DiffSegmentType::Added);
    assert_eq!(result[0].text, "abc");
}

#[test]
fn test_compute_diff_to_empty() {
    let result = compute_diff("abc", "");
    assert_eq!(result.len(), 1);
    assert_eq!(result[0].segment_type, DiffSegmentType::Removed);
    assert_eq!(result[0].text, "abc");
}

/// The segments reassemble both inputs: unchanged and removed text give the
/// original, unchanged and added text give the modified string.
#[test]
fn test_compute_diff_reconstructs_both_sides() {
    let original = "the quick brown fox";
    let modified = "the slow brown cat";
    let result = compute_diff(original, modified);

    let mut left = String::new();
    let mut right = String::new();
    for seg in &result {
        if seg.segment_type != DiffSegmentType::Added {
            left.push_str(&seg.text);
        }
        if seg.segment_type != DiffSegmentType::Removed {
            right.push_str(&seg.text);
        }
    }
    assert_eq!(left, original);
    assert_eq!(right, modified);
}

// ==================== get_regex_highlights tests ====================

#[test]
fn test_regex_highlights_no_groups() {
    let result = get_regex_highlights("file123.txt", r"\d+").unwrap();
    assert_eq!(result.len(), 3);
    assert_eq!(result[0], RegexSegment::Text("file".to_string()));
    assert_eq!(
        result[1],
        RegexSegment::Group {
            id: 0,
            text: "123".to_string()
        }
    );
    assert_eq!(result[2], RegexSegment::Text(".txt".to_string()));
}

#[test]
fn test_regex_highlights_with_groups() {
    let result = get_regex_highlights("file123-abc.txt", r"(\d+)-(\w+)").unwrap();
    // Expected: "file" + group(1)="123" + "-" + group(2)="abc" + ".txt"
    assert_eq!(result.len(), 5);
    assert_eq!(result[0], RegexSegment::Text("file".to_string()));
    assert_eq!(
        result[1],
        RegexSegment::Group {
            id: 1,
            text: "123".to_string()
        }
    );
    // "-" is between the groups inside the match
    assert_eq!(result[2], RegexSegment::Text("-".to_string()));
    assert_eq!(
        result[3],
        RegexSegment::Group {
            id: 2,
            text: "abc".to_string()
        }
    );
    // ".txt" is after the match
    assert_eq!(result[4], RegexSegment::Text(".txt".to_string()));
}

#[test]
fn test_regex_highlights_text_gaps() {
    // String with multiple matches and text between them
    let result = get_regex_highlights("a1b2c", r"\d").unwrap();
    assert_eq!(result.len(), 5);
    assert_eq!(result[0], RegexSegment::Text("a".to_string()));
    assert_eq!(
        result[1],
        RegexSegment::Group {
            id: 0,
            text: "1".to_string()
        }
    );
    assert_eq!(result[2], RegexSegment::Text("b".to_string()));
    assert_eq!(
        result[3],
        RegexSegment::Group {
            id: 0,
            text: "2".to_string()
        }
    );
    assert_eq!(result[4], RegexSegment::Text("c".to_string()));
}

#[test]
fn test_regex_highlights_no_match() {
    let result = get_regex_highlights("hello", r"\d+").unwrap();
    assert_eq!(result.len(), 1);
    assert_eq!(result[0], RegexSegment::Text("hello".to_string()));
}

#[test]
fn test_regex_highlights_invalid_pattern() {
    let result = get_regex_highlights("test", r"[invalid");
    assert!(result.is_err());
}

#[test]
fn test_regex_highlights_entire_string_match() {
    let result = get_regex_highlights("123", r"\d+").unwrap();
    assert_eq!(result.len(), 1);
    assert_eq!(
        result[0],
        RegexSegment::Group {
            id: 0,
            text: "123".to_string()
        }
    );
}

#[test]
fn test_regex_highlights_match_at_start() {
    let result = get_regex_highlights("123abc", r"\d+").unwrap();
    assert_eq!(result.len(), 2);
    assert_eq!(
        result[0],
        RegexSegment::Group {
            id: 0,
            text: "123".to_string()
        }
    );
    assert_eq!(result[1], RegexSegment::Text("abc".to_string()));
}

#[test]
fn test_regex_highlights_match_at_end() {
    let result = get_regex_highlights("abc123", r"\d+").unwrap();
    assert_eq!(result.len(), 2);
    assert_eq!(result[0], RegexSegment::Text("abc".to_string()));
    assert_eq!(
        result[1],
        RegexSegment::Group {
            id: 0,
            text: "123".to_string()
        }
    );
}

#[test]
fn test_regex_highlights_with_trailing_text_after_groups() {
    // Pattern that captures only part of the match
    let result = get_regex_highlights("file123px.txt", r"(\d+)px").unwrap();
    // Expected: "file" + group(1)="123" + "px" (trailing inside match) + ".txt"
    assert_eq!(result.len(), 4);
    assert_eq!(result[0], RegexSegment::Text("file".to_string()));
    assert_eq!(
        result[1],
        RegexSegment::Group {
            id: 1,
            text: "123".to_string()
        }
    );
    assert_eq!(result[2], RegexSegment::Text("px".to_string()));
    assert_eq!(result[3], RegexSegment::Text(".txt".to_string()));
}

/// Concatenating every segment's text, in order, reproduces the input:
/// the segmentation loses and duplicates nothing.
#[test]
fn test_regex_highlights_reassemble_input() {
    let inputs = [
        ("file123-abc.txt", r"(\d+)-(\w+)"),
        ("a1b2c", r"\d"),
        ("hello", r"\d+"),
        ("file123px.txt", r"(\d+)px"),
        ("123", r"\d+"),
        ("abc123", r"((\d)(\d))\d"),
    ];
    for (text, pattern) in inputs {
        let segments = get_regex_highlights(text, pattern).unwrap();
        let mut rebuilt = String::new();
        for seg in &segments {
            match seg {
                RegexSegment::Text(t) => rebuilt.push_str(t),
                RegexSegment::Group { text: t, .. } => rebuilt.push_str(t),
            }
        }
        assert_eq!(rebuilt, text);
    }
}

// ==================== has_capture_groups tests ====================

#[test]
fn test_has_capture_groups_true_for_real_groups() {
    assert!(has_capture_groups(r"(\d+)"));
    assert!(has_capture_groups(r"(\w+)-(\d+)"));
    assert!(has_capture_groups(r"^(.+)\.txt$"));
}

#[test]
fn test_has_capture_groups_false_for_noncapturing() {
    assert!(!has_capture_groups(r"(?:\d+)"));
    assert!(!has_capture_groups(r"(?:foo|bar)"));
}

#[test]
fn test_has_capture_groups_false_for_escaped_parens() {
    assert!(!has_capture_groups(r"\(\d+\)"));
    assert!(!has_capture_groups(r"foo\(bar\)"));
}

#[test]
fn test_has_capture_groups_false_for_character_class() {
    assert!(!has_capture_groups(r"[(]foo[)]"));
}

#[test]
fn test_has_capture_groups_no_parens_at_all() {
    assert!(!has_capture_groups(r"\d+"));
    assert!(!has_capture_groups(r"hello"));
}

#[test]
fn test_has_capture_groups_invalid_pattern() {
    // Invalid patterns should return false
    assert!(!has_capture_groups(r"[invalid"));
}

#[test]
fn test_has_capture_groups_mixed() {
    // Has both capturing and non-capturing
    assert!(has_capture_groups(r"(?:\d+)-(\w+)"));
}
