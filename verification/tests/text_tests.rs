use monotabe::llm::{clean_reply, intro, page_label, request_content, strip_code_fences, ContentBlock, replace};
use monotabe::media::{fmt_dur, pitch_label};
use monotabe::text::{
    chars_of, concat_str, contains_chars, decimal_string, is_blank, is_whitespace, non_empty,
    string_from_chars, trim,
};

#[test]
fn trim_follows_str_trim() {
    for s in ["", "  ", " a b ", "\u{3000}x\u{85}", "\tline\n", "a"] {
        assert_eq!(trim(s), s.trim());
        assert_eq!(trim(&trim(s)), trim(s));
        assert_eq!(is_blank(s), s.trim().is_empty());
    }
    assert_eq!(non_empty("  x "), Some("x".to_string()));
    assert_eq!(non_empty(" \n"), None);
}

#[test]
fn whitespace_matches_char_is_whitespace() {
    for c in ['\u{0}', ' ', '\t', '\u{a0}', '\u{200b}', '\u{2009}', 'a', '\u{feff}', '\u{1680}'] {
        assert_eq!(is_whitespace(c), c.is_whitespace(), "{:?}", c);
    }
}

#[test]
fn characters_round_trip() {
    let v = chars_of("héllo");
    assert_eq!(v, vec!['h', 'é', 'l', 'l', 'o']);
    assert_eq!(string_from_chars(&v), "héllo");
    assert_eq!(concat_str("ab", "cd"), "abcd");
}

#[test]
fn decimal_formatting() {
    assert_eq!(decimal_string(0), "0");
    assert_eq!(decimal_string(7), "7");
    assert_eq!(decimal_string(1200), "1200");
    assert_eq!(decimal_string(u64::MAX), u64::MAX.to_string());
}

#[test]
fn substring_search() {
    let hay = chars_of("metallica");
    assert!(contains_chars(&hay, &chars_of("tall")));
    assert!(contains_chars(&hay, &chars_of("")));
    assert!(!contains_chars(&hay, &chars_of("muse")));
    assert!(!contains_chars(&chars_of("ab"), &chars_of("abc")));
}

#[test]
fn play_times_format_as_minutes_and_seconds() {
    assert_eq!(fmt_dur(0), "0:00");
    assert_eq!(fmt_dur(9), "0:09");
    assert_eq!(fmt_dur(75), "1:15");
    assert_eq!(fmt_dur(3600), "60:00");
}

#[test]
fn pitch_labels() {
    assert_eq!(pitch_label(0), "0 st");
    assert_eq!(pitch_label(3), "+3 st");
    assert_eq!(pitch_label(-2), "-2 st");
    assert_eq!(pitch_label(i32::MIN), format!("{} st", i32::MIN));
}

#[test]
fn code_fences_are_stripped() {
    assert_eq!(strip_code_fences("```json\n[1]\n```"), "[1]");
    assert_eq!(strip_code_fences("  ```\n[2]```  "), "[2]");
    assert_eq!(strip_code_fences("[3]"), "[3]");
    assert_eq!(strip_code_fences(""), "");
}

#[test]
fn replies_are_mended_before_parsing() {
    assert_eq!(
        clean_reply("```json\n[{\"page\">0,\"y_frac\":0.1}]\n```"),
        "[{\"page\":0,\"y_frac\":0.1}]"
    );
    assert_eq!(replace("aaa", "aa", "b"), "ba");
    assert_eq!(replace("abcabc", "bc", ""), "aa");
    assert_eq!(replace("xyz", "q", "r"), "xyz");
}

#[test]
fn the_request_opens_with_the_instructions() {
    let n_pages = 4usize;
    let audio_duration_secs = 201.25f32;
    let expected = format!(
        "You are analyzing {n_pages} page(s) of a guitar/bass tablature PDF.\n\
         The audio recording is exactly {audio_duration_secs:.1} seconds long.\n\
         \n\
         Your job is to produce a precise timing map so the tab can auto-scroll in sync with the audio.\n\
         \n\
         STEP 1 — Count measures:\n\
         Look at each page carefully. In guitar/bass tab, measures are separated by VERTICAL BAR LINES\n\
         that cross all 6 (guitar) or 4 (bass) strings. Count every measure on every page.\n\
         \n\
         STEP 2 — Find tempo:\n\
         Look for a BPM or tempo marking (e.g. '♩= 120', 'q=90', 'Tempo: 100 BPM') near the top of page 0.\n\
         If found: seconds_per_measure = (60.0 / BPM) * beats_per_bar (beats_per_bar is usually 4).\n\
         If NOT found: seconds_per_measure = {audio_duration_secs:.1} / total_measure_count.\n\
         \n\
         STEP 3 — Compute y positions:\n\
         For each measure, compute y_frac = the vertical center of that measure's staff row,\n\
         as a fraction of the full page height (0.0 = very top, 1.0 = very bottom).\n\
         Measures within the same staff row share a y_frac. Rows are stacked vertically down the page.\n\
         DO NOT assign y_frac values uniformly — base them on actual visual row positions in the image.\n\
         \n\
         STEP 4 — Handle repeats:\n\
         If the tab has repeat signs (||: and :||) or a D.C./D.S., include repeated sections with\n\
         the correct time_secs for each pass.\n\
         \n\
         Return ONLY a raw JSON array, one object per measure, no explanation, no markdown:\n\
         [{{\"page\":0,\"y_frac\":0.05,\"time_secs\":0.0}}, ...]\n\
         \n\
         Rules:\n\
         - page is 0-indexed\n\
         - First entry MUST be {{\"page\":0,\"y_frac\":0.0,\"time_secs\":0.0}}\n\
         - time_secs must be strictly increasing\n\
         - Last entry time_secs must be close to {audio_duration_secs:.1}\n\
         - y_frac values MUST reflect the actual visual row positions, not be evenly spaced"
    );
    let duration = format!("{audio_duration_secs:.1}");
    assert_eq!(intro(n_pages as u64, &duration), expected);
}

#[test]
fn the_request_carries_each_page() {
    assert_eq!(page_label(0), "Page 0:");
    assert_eq!(page_label(12), "Page 12:");
    let pages = vec![b"hello".to_vec(), vec![0u8, 255, 1]];
    let blocks = request_content("10.0", &pages);
    assert_eq!(blocks.len(), 5);
    match &blocks[1] {
        ContentBlock::Text(t) => assert_eq!(t, "Page 0:"),
        _ => panic!("expected a label"),
    }
    match &blocks[2] {
        ContentBlock::PngBase64(t) => assert_eq!(t, "aGVsbG8="),
        _ => panic!("expected an image"),
    }
    match &blocks[4] {
        ContentBlock::PngBase64(t) => assert_eq!(t, "AP8B"),
        _ => panic!("expected an image"),
    }
}
