use modbot::chunk_string;

#[test]
fn chunk_small_words() {
    let chunks = chunk_string("word1 word2 word3", 6);
    assert_eq!(chunks, vec!["word1", "word2", "word3\n"]);
    for chunk in &chunks {
        assert!(chunk.chars().count() <= 6);
    }
    let joined = chunks.join(" ");
    let words: Vec<&str> = joined.split_whitespace().collect();
    assert_eq!(words, vec!["word1", "word2", "word3"]);
}

#[test]
fn chunk_empty_input() {
    let chunks = chunk_string("", 10);
    assert!(chunks.is_empty());
}

#[test]
fn chunk_exact_fit_closes_immediately() {
    // "ab cd" fills a chunk of five exactly; the line's newline is dropped
    // because the chunk was already closed.
    let chunks = chunk_string("ab cd", 5);
    assert_eq!(chunks, vec!["ab cd"]);
}

#[test]
fn chunk_overlong_word_stands_alone() {
    let chunks = chunk_string("abcdefghij", 3);
    assert_eq!(chunks, vec!["abcdefghij\n"]);
    assert!(!chunks[0].contains(' '));
}

#[test]
fn chunk_overlong_word_between_small_ones() {
    let chunks = chunk_string("ab abcdefghij cd", 4);
    assert_eq!(chunks, vec!["ab", "abcdefghij", "cd\n"]);
}

#[test]
fn chunk_keeps_line_breaks() {
    let chunks = chunk_string("ab\ncd", 10);
    assert_eq!(chunks, vec!["ab\ncd\n"]);
}

#[test]
fn chunk_space_counts_toward_size() {
    // "word1 word2" would be eleven characters; at size ten the second word
    // starts a fresh chunk rather than overflowing the first.
    let chunks = chunk_string("word1 word2", 10);
    assert_eq!(chunks, vec!["word1", "word2\n"]);
}

#[test]
fn chunk_long_text_stays_bounded() {
    let text = "lorem ipsum dolor sit amet ".repeat(400);
    let chunks = chunk_string(&text, 1950);
    assert!(!chunks.is_empty());
    for chunk in &chunks {
        assert!(chunk.chars().count() <= 1950);
        assert!(!chunk.is_empty());
    }
    let joined = chunks.join(" ");
    let original_words: Vec<&str> = text.split_whitespace().collect();
    let joined_words: Vec<&str> = joined.split_whitespace().collect();
    assert_eq!(original_words, joined_words);
}

#[test]
fn chunk_blank_lines_extend_pending_chunk() {
    let chunks = chunk_string("a\n\nb", 20);
    assert_eq!(chunks, vec!["a\n\nb\n"]);
}

#[test]
fn chunk_newline_fills_chunk() {
    // the newline counts toward the size; reaching the limit closes the chunk
    let chunks = chunk_string("word1", 6);
    assert_eq!(chunks, vec!["word1\n"]);
}

#[test]
fn chunk_closed_by_newline_starts_fresh() {
    let chunks = chunk_string("ab cd\n\nx", 6);
    assert_eq!(chunks, vec!["ab cd\n", "x\n"]);
    for chunk in &chunks {
        assert!(chunk.chars().count() <= 6);
    }
}
