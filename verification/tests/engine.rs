//! Tests of the template engine, the buffered sink and the command
//! tokenizer.

use localshare::sink::StreamBuffer;
use localshare::template::render_template;
use localshare::tokens::CommandTokenIter;

#[test]
fn test_command_iterator() {
    let command_strings = [
        "add this",
        "do \"all of these\" things",
        "remove -r \"these things",
        "quit   this",
        "exit all    ",
    ];
    let command_token_strings: [&[&str]; 5] = [
        &["add", "this"],
        &["do", "all of these", "things"],
        &["remove", "-r", "these things"],
        &["quit", "this"],
        &["exit", "all"],
    ];

    for (command_iter, string) in command_strings.into_iter().enumerate() {
        let mut tokens = CommandTokenIter::new(string);
        let mut iter = 0;
        while let Some(token) = tokens.next() {
            assert_eq!(token, command_token_strings[command_iter][iter].as_bytes());
            iter += 1;
        }
        assert_eq!(iter, command_token_strings[command_iter].len());
    }
}

#[test]
fn template_substitutes_matching_keys() {
    let keys = vec![b"a".to_vec(), b"b".to_vec()];
    let values = vec![b"X".to_vec(), b"YY".to_vec()];
    let out = render_template(b"%a%-%b%", &keys, &values);
    assert_eq!(out.as_slice(), b"X-YY");
}

#[test]
fn template_double_percent_is_literal() {
    let keys = vec![b"a".to_vec()];
    let values = vec![b"X".to_vec()];
    let out = render_template(b"100%% sure", &keys, &values);
    assert_eq!(out.as_slice(), b"100% sure");
}

#[test]
fn template_unmatched_key_is_reported_inline() {
    let keys = vec![b"a".to_vec(), b"b".to_vec()];
    let values = vec![b"X".to_vec(), b"YY".to_vec()];
    let out = render_template(b"%z%", &keys, &values);
    assert_eq!(out.as_slice(), b"UNMATCHED KEY: z");
}

#[test]
fn template_unclosed_placeholder_is_dropped() {
    let keys = vec![b"a".to_vec()];
    let values = vec![b"X".to_vec()];
    let out = render_template(b"go %a", &keys, &values);
    assert_eq!(out.as_slice(), b"go ");
}

#[test]
fn template_first_matching_key_wins() {
    let keys = vec![b"k".to_vec(), b"k".to_vec()];
    let values = vec![b"first".to_vec(), b"second".to_vec()];
    let out = render_template(b"%k%", &keys, &values);
    assert_eq!(out.as_slice(), b"first");
}

#[test]
fn buffered_sink_flushes_in_capacity_chunks() {
    // Writing N bytes through a capacity-C buffer and then flushing makes
    // exactly ceil(N / C) underlying writes whose concatenation is the
    // original bytes in order.
    let mut buffer = StreamBuffer::new(2);
    buffer.write(b"hello");
    buffer.flush();
    let writes = buffer.take_writes();
    assert_eq!(writes.len(), 3);
    assert_eq!(writes[0].as_slice(), b"he");
    assert_eq!(writes[1].as_slice(), b"ll");
    assert_eq!(writes[2].as_slice(), b"o");
    let flat: Vec<u8> = writes.concat();
    assert_eq!(flat.as_slice(), b"hello");
}

#[test]
fn buffered_sink_exact_multiple_of_capacity() {
    let mut buffer = StreamBuffer::new(3);
    buffer.write(b"abcdef");
    buffer.flush();
    let writes = buffer.take_writes();
    assert_eq!(writes.len(), 2);
    let flat: Vec<u8> = writes.concat();
    assert_eq!(flat.as_slice(), b"abcdef");
}

#[test]
fn buffered_sink_clear_drops_pending_bytes() {
    let mut buffer = StreamBuffer::new(8);
    buffer.write(b"abc");
    buffer.clear();
    buffer.flush();
    let writes = buffer.take_writes();
    assert_eq!(writes.len(), 1);
    assert_eq!(writes[0].as_slice(), b"");
}

#[test]
fn buffered_sink_coalesces_small_writes() {
    let mut buffer = StreamBuffer::new(16);
    buffer.write(b"a");
    buffer.write(b"b");
    buffer.write(b"c");
    buffer.flush();
    let writes = buffer.take_writes();
    assert_eq!(writes.len(), 1);
    assert_eq!(writes[0].as_slice(), b"abc");
}
