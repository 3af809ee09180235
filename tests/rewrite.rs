use wasm_bundle::bundle::Bundle;
use wasm_bundle::rewrite::{bytes_equal, Action, Event, Rewriter, Step};
use wasm_bundle::section::{custom_section_header, RewriteError};
use wasm_bundle::sink::SinkState;

const HEADER: [u8; 8] = [0, b'a', b's', b'm', 1, 0, 0, 0];

/// Runs a whole pass over `input`, reading exactly what the parser asks for.
/// Returns the output and how many sections were stripped.
fn run(section: &str, input: &[u8]) -> Result<(Vec<u8>, usize), RewriteError> {
    let mut rw = Rewriter::new(section.as_bytes().to_vec());
    let mut pos = 0usize;
    let mut out = Vec::new();
    let mut stripped = 0usize;
    while !rw.is_finished() {
        match rw.next_action()? {
            Action::Read(n) => {
                let end = std::cmp::min(pos + n as usize, input.len());
                rw.supply(&input[pos..end]);
                pos = end;
            }
            Action::Write(bytes) => out.extend_from_slice(&bytes),
            Action::Skip => stripped += 1,
        }
    }
    Ok((out, stripped))
}

fn custom(name: &str, content: &[u8]) -> Vec<u8> {
    let mut v = custom_section_header(name.as_bytes(), content.len() as u64).unwrap();
    v.extend_from_slice(content);
    v
}

fn module(sections: &[Vec<u8>]) -> Vec<u8> {
    let mut m = HEADER.to_vec();
    for s in sections {
        m.extend_from_slice(s);
    }
    m
}

/// Strips `name` from `input`, then appends a section `name` holding `content`.
fn rewrite(name: &str, input: &[u8], content: &[u8]) -> Vec<u8> {
    let (mut out, _) = run(name, input).unwrap();
    out.extend_from_slice(&custom(name, content));
    out
}

#[test]
fn header_of_small_section() {
    let h = custom_section_header(b"bar", 2).unwrap();
    assert_eq!(h, vec![0, 6, 3, b'b', b'a', b'r']);
}

#[test]
fn header_with_multibyte_lengths() {
    let name = vec![b'n'; 200];
    let h = custom_section_header(&name, 100).unwrap();
    // payload = 2 (name length) + 200 + 100 = 302 = 0b10_0101110
    assert_eq!(&h[..5], &[0, 0xae, 0x02, 0xc8, 0x01]);
    assert_eq!(h.len(), 5 + 200);
}

#[test]
fn header_overflow() {
    assert_eq!(custom_section_header(b"x", u64::MAX), Err(RewriteError::IntegerOverflow));
}

#[test]
fn bundle_header_uses_section_name() {
    let b = Bundle {
        files: "f".to_string(),
        iwasm: "i".to_string(),
        owasm: "o".to_string(),
        section: "bar".to_string(),
    };
    assert_eq!(b.header(2).unwrap(), vec![0, 6, 3, b'b', b'a', b'r']);
    assert_eq!(b.header(u64::MAX), Err(RewriteError::IntegerOverflow));
}

#[test]
fn strip_then_append_scenario() {
    let input = module(&[vec![0, 7, 3, b'f', b'o', b'o', 1, 2, 3]]);
    let (out, stripped) = run("foo", &input).unwrap();
    assert_eq!(out, HEADER.to_vec());
    assert_eq!(stripped, 1);

    let mut appended = out.clone();
    appended.extend_from_slice(&custom("bar", &[9, 9]));
    let mut expected = HEADER.to_vec();
    expected.extend_from_slice(&[0, 6, 3, b'b', b'a', b'r', 9, 9]);
    assert_eq!(appended, expected);
}

#[test]
fn absent_name_is_identity() {
    // a type section with one `() -> ()` type, and two custom sections
    let input = module(&[
        vec![1, 4, 1, 0x60, 0, 0],
        custom("keep", &[1, 2, 3]),
        custom("other", &[]),
    ]);
    let (out, stripped) = run("X", &input).unwrap();
    assert_eq!(out, input);
    assert_eq!(stripped, 0);
}

#[test]
fn header_only_is_identity() {
    let (out, stripped) = run("X", &HEADER).unwrap();
    assert_eq!(out, HEADER.to_vec());
    assert_eq!(stripped, 0);
}

#[test]
fn every_matching_section_is_stripped() {
    let input = module(&[
        custom("foo", &[1]),
        custom("bar", &[2]),
        custom("foo", &[3, 3]),
    ]);
    let (out, stripped) = run("foo", &input).unwrap();
    assert_eq!(out, module(&[custom("bar", &[2])]));
    assert_eq!(stripped, 2);
}

#[test]
fn appended_section_reads_back_once() {
    let input = module(&[custom("a", &[5])]);
    let payload = [7u8, 8, 9, 10];
    let out = rewrite("X", &input, &payload);
    let (stripped_out, count) = run("X", &out).unwrap();
    assert_eq!(count, 1);
    assert_eq!(stripped_out, input);
    assert_eq!(&out[input.len()..], &custom("X", &payload)[..]);
}

#[test]
fn rewrite_twice_keeps_latest_only() {
    let input = module(&[custom("X", &[0]), custom("a", &[5])]);
    let once = rewrite("X", &input, &[1, 1]);
    let twice = rewrite("X", &once, &[2, 2, 2]);
    let (rest, count) = run("X", &twice).unwrap();
    assert_eq!(count, 1);
    assert_eq!(rest, module(&[custom("a", &[5])]));
    assert!(twice.ends_with(&custom("X", &[2, 2, 2])));
}

#[test]
fn nested_module_is_identity() {
    // a module code section (id 103) holding one nested module, followed by a
    // custom section of the outer module
    let mut nested_section = vec![103, 10, 1, 8];
    nested_section.extend_from_slice(&HEADER);
    let input = module(&[nested_section, custom("after", &[4, 4])]);
    let (out, stripped) = run("X", &input).unwrap();
    assert_eq!(out, input);
    assert_eq!(stripped, 0);
}

#[test]
fn nested_module_then_strip_outer_section() {
    let mut nested_section = vec![103, 10, 1, 8];
    nested_section.extend_from_slice(&HEADER);
    let input = module(&[nested_section.clone(), custom("X", &[4, 4])]);
    let (out, stripped) = run("X", &input).unwrap();
    assert_eq!(out, module(&[nested_section]));
    assert_eq!(stripped, 1);
}

#[test]
fn truncated_input_is_malformed() {
    let mut input = module(&[custom("foo", &[1, 2, 3])]);
    input.pop();
    assert_eq!(run("foo", &input), Err(RewriteError::MalformedInput));
}

#[test]
fn bad_magic_is_malformed() {
    let input = [1u8, 2, 3, 4, 5, 6, 7, 8];
    assert_eq!(run("foo", &input), Err(RewriteError::MalformedInput));
}

#[test]
fn need_more_data_at_eof_is_malformed() {
    let mut rw = Rewriter::new(b"foo".to_vec());
    match rw.next_action() {
        Ok(Action::Read(_)) => {}
        _ => panic!("expected a read"),
    }
    rw.supply(&[]);
    assert!(matches!(rw.apply(Step::NeedMoreData(4)), Err(RewriteError::MalformedInput)));
}

#[test]
fn apply_rejects_overlong_span() {
    let mut rw = Rewriter::new(b"foo".to_vec());
    let r = rw.apply(Step::Parsed { consumed: 1, event: Event::Content });
    assert!(matches!(r, Err(RewriteError::MalformedInput)));
}

#[test]
fn apply_forwards_and_strips() {
    let mut rw = Rewriter::new(b"foo".to_vec());
    match rw.apply(Step::NeedMoreData(3)) {
        Ok(Action::Read(3)) => {}
        _ => panic!("expected a read of three bytes"),
    }
    rw.supply(&[1, 2, 3]);
    match rw.apply(Step::Parsed { consumed: 2, event: Event::Custom(b"foo".to_vec()) }) {
        Ok(Action::Skip) => {}
        _ => panic!("expected the span to be stripped"),
    }
    match rw.apply(Step::Parsed { consumed: 1, event: Event::Custom(b"fo".to_vec()) }) {
        Ok(Action::Write(b)) => assert_eq!(b, vec![3]),
        _ => panic!("expected the span to be written"),
    }
    assert!(!rw.is_finished());
    match rw.apply(Step::Parsed { consumed: 0, event: Event::End }) {
        Ok(Action::Write(b)) => assert!(b.is_empty()),
        _ => panic!("expected an empty write"),
    }
    assert!(rw.is_finished());
}

#[test]
fn bytes_equal_cases() {
    assert!(bytes_equal(b"", b""));
    assert!(bytes_equal(b"abc", b"abc"));
    assert!(!bytes_equal(b"abc", b"abd"));
    assert!(!bytes_equal(b"ab", b"abc"));
}

#[test]
fn sink_abandoned_is_removed_once() {
    let mut s = SinkState::armed();
    assert!(s.release());
    assert_eq!(s, SinkState::Abandoned);
    assert!(!s.release());
}

#[test]
fn sink_committed_is_kept() {
    let mut s = SinkState::armed();
    s.commit();
    assert_eq!(s, SinkState::Committed);
    assert!(!s.release());
    assert_eq!(s, SinkState::Committed);
}
