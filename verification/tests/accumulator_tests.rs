use stream_worker::accumulator::SentenceAccumulator;

#[test]
fn two_fragments_one_sentence() {
    let mut acc = SentenceAccumulator::new();
    let first = acc.feed("Hello");
    assert!(first.is_empty());
    let second = acc.feed(" world.");
    assert_eq!(second, vec!["Hello world.".to_string()]);
}

#[test]
fn multiple_terminators_in_one_fragment() {
    let mut acc = SentenceAccumulator::new();
    let out = acc.feed("One. Two. Three");
    assert_eq!(out, vec!["One.".to_string(), " Two.".to_string()]);
    assert_eq!(acc.flush(), Some(" Three".to_string()));
}

#[test]
fn emitted_plus_flush_reassembles_input() {
    let fragments = ["ab", "c.d", "", "e!f?", "g"];
    let mut acc = SentenceAccumulator::new();
    let mut gathered = String::new();
    for fragment in fragments {
        for sentence in acc.feed(fragment) {
            gathered.push_str(&sentence);
        }
    }
    if let Some(rest) = acc.flush() {
        gathered.push_str(&rest);
    }
    assert_eq!(gathered, fragments.concat());
}

#[test]
fn fragment_of_only_terminators_flushes_immediately() {
    let mut acc = SentenceAccumulator::new();
    let out = acc.feed("!?.");
    assert_eq!(out, vec!["!".to_string(), "?".to_string(), ".".to_string()]);
    assert_eq!(acc.flush(), None);
}

#[test]
fn empty_fragment_is_a_no_op() {
    let mut acc = SentenceAccumulator::new();
    assert!(acc.feed("").is_empty());
    assert_eq!(acc.flush(), None);
}

#[test]
fn flush_clears_pending_text() {
    let mut acc = SentenceAccumulator::new();
    assert!(acc.feed("partial").is_empty());
    assert_eq!(acc.flush(), Some("partial".to_string()));
    assert_eq!(acc.flush(), None);
}

#[test]
fn question_and_exclamation_end_sentences() {
    let mut acc = SentenceAccumulator::new();
    let out = acc.feed("Really? Yes! Done.");
    assert_eq!(
        out,
        vec!["Really?".to_string(), " Yes!".to_string(), " Done.".to_string()]
    );
    assert_eq!(acc.flush(), None);
}
