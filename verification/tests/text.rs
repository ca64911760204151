use std::io::BufRead;
use turm::text::{same_text, split, split_lines, to_chars};

#[test]
fn split_agrees_with_the_standard_library() {
    let texts = ["", "a", ",", "a,b", ",a,", ",,", "aXYb", "XYXY", "XXY", "XYX", "\u{e9}XY\u{e9}"];
    for sep in [",", "XY", "XYX"] {
        for text in texts {
            let expected: Vec<&str> = text.split(sep).collect();
            assert_eq!(split(text, sep), expected);
        }
    }
}

#[test]
fn pieces_put_together_are_the_text() {
    let text = "a###turm#####turm###turm###b";
    let parts = split(text, "###turm###");
    assert_eq!(parts.len(), 3);
    assert_eq!(parts[0], "a");
    assert_eq!(parts[1], "##turm");
    assert_eq!(parts[2], "b");
    assert_eq!(parts.join("###turm###"), text);
    for part in &parts {
        assert!(!part.contains("###turm###"));
    }
}

#[test]
fn lines_agree_with_the_standard_library() {
    let buffers = [
        "", "\n", "a", "a\n", "a\r\n", "a\r", "\r\n", "\r\r\n", "a\n\nb", "a\r\nb\r", "\n\n", "\ra\nb",
    ];
    for buffer in buffers {
        let expected: Vec<String> = buffer.as_bytes().lines().map(|l| l.unwrap()).collect();
        let found: Vec<String> = split_lines(buffer.as_bytes())
            .into_iter()
            .map(|l| String::from_utf8(l).unwrap())
            .collect();
        assert_eq!(found, expected);
    }
}

#[test]
fn texts_are_compared_as_a_whole() {
    assert!(same_text("", ""));
    assert!(same_text("N/A", "N/A"));
    assert!(!same_text("N/A", "N/"));
    assert!(!same_text("N/A", "n/a"));
    assert!(!same_text("a", ""));
}

#[test]
fn characters_are_those_of_the_text() {
    assert_eq!(to_chars("a\u{e9}\u{1f600}"), vec!['a', '\u{e9}', '\u{1f600}']);
}
