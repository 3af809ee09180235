//! The section layer of the module format and the encoding of a new custom
//! section:
//!
//! ```text
//! module         := header, section*
//! section        := id:u8, length:leb128, payload
//! custom_payload := name_len:leb128, name:bytes[name_len], content:bytes
//! ```

use vstd::prelude::*;

use crate::leb::{encode_leb128, leb128, lemma_leb128_len, lemma_read_leb128, read_leb128};

verus! {

/// The section id of a custom section.
pub const CUSTOM_SECTION_ID: u8 = 0;

/// Why a rewrite could not be completed.
#[derive(Debug, Clone, Copy, PartialEq, Eq, Structural)]
pub enum RewriteError {
    /// The input is not a well-formed module.
    MalformedInput,
    /// A section length does not fit the platform's integer range.
    IntegerOverflow,
}

/// One section as it stands in a module: its id and its payload.
pub struct RawSection {
    pub id: u8,
    pub payload: Seq<u8>,
}

/// The bytes of one section.
pub open spec fn section_bytes(id: u8, payload: Seq<u8>) -> Seq<u8> {
    seq![id] + leb128(payload.len()) + payload
}

/// The payload of a custom section named `name` holding `content`.
pub open spec fn custom_payload(name: Seq<u8>, content: Seq<u8>) -> Seq<u8> {
    leb128(name.len()) + name + content
}

/// The bytes of a custom section named `name` holding `content`.
pub open spec fn custom_section(name: Seq<u8>, content: Seq<u8>) -> Seq<u8> {
    section_bytes(CUSTOM_SECTION_ID, custom_payload(name, content))
}

/// What precedes the content in a custom section named `name` whose content
/// is `content_len` bytes long.
pub open spec fn custom_header(name: Seq<u8>, content_len: nat) -> Seq<u8> {
    seq![CUSTOM_SECTION_ID] + leb128(leb128(name.len()).len() + name.len() + content_len)
        + leb128(name.len()) + name
}

/// Splits a run of sections; `None` where a section is cut short.
pub open spec fn split_sections(s: Seq<u8>) -> Option<Seq<RawSection>>
    decreases s.len(),
{
    if s.len() == 0 {
        Some(Seq::empty())
    } else {
        match read_leb128(s.drop_first()) {
            Some((len, k)) => if 1 + k + len <= s.len() && k > 0 {
                match split_sections(s.subrange((1 + k + len) as int, s.len() as int)) {
                    Some(rest) => Some(
                        seq![RawSection { id: s[0], payload: s.subrange((1 + k) as int, (1 + k + len) as int) }]
                            + rest,
                    ),
                    None => None,
                }
            } else {
                None
            },
            None => None,
        }
    }
}

/// The name of a section if it is a custom section, with its content.
pub open spec fn custom_parts(sec: RawSection) -> Option<(Seq<u8>, Seq<u8>)> {
    if sec.id != CUSTOM_SECTION_ID {
        None
    } else {
        match read_leb128(sec.payload) {
            Some((n, k)) => if k + n <= sec.payload.len() {
                Some(
                    (
                        sec.payload.subrange(k as int, (k + n) as int),
                        sec.payload.subrange((k + n) as int, sec.payload.len() as int),
                    ),
                )
            } else {
                None
            },
            None => None,
        }
    }
}

/// Whether `sec` is a custom section named `name`.
pub open spec fn is_named(sec: RawSection, name: Seq<u8>) -> bool {
    match custom_parts(sec) {
        Some((n, _)) => n == name,
        None => false,
    }
}

/// How many sections of `secs` are custom sections named `name`.
pub open spec fn count_named(secs: Seq<RawSection>, name: Seq<u8>) -> nat
    decreases secs.len(),
{
    if secs.len() == 0 {
        0
    } else {
        count_named(secs.drop_last(), name) + if is_named(secs.last(), name) {
            1nat
        } else {
            0nat
        }
    }
}

/// The sections of `secs` that are not custom sections named `name`.
pub open spec fn strip_named(secs: Seq<RawSection>, name: Seq<u8>) -> Seq<RawSection> {
    secs.filter(|sec: RawSection| !is_named(sec, name))
}

/// The custom section named `name` holding `content`, as a section.
pub open spec fn custom_raw(name: Seq<u8>, content: Seq<u8>) -> RawSection {
    RawSection { id: CUSTOM_SECTION_ID, payload: custom_payload(name, content) }
}

/// The section list after one rewrite: every section named `name` removed,
/// then a new one holding `content` appended.
pub open spec fn rewrite_sections(secs: Seq<RawSection>, name: Seq<u8>, content: Seq<u8>) -> Seq<
    RawSection,
> {
    strip_named(secs, name).push(custom_raw(name, content))
}

/// The sections of a module: what follows its eight-byte header, split.
pub open spec fn module_sections(m: Seq<u8>) -> Option<Seq<RawSection>> {
    if m.len() < 8 {
        None
    } else {
        split_sections(m.subrange(8, m.len() as int))
    }
}

/// A complete LEB128 integer is read the same whatever follows it.
proof fn lemma_read_leb128_prefix(a: Seq<u8>, b: Seq<u8>)
    requires
        read_leb128(a) is Some,
    ensures
        read_leb128(a + b) == read_leb128(a),
        match read_leb128(a) {
            Some((_, k)) => 0 < k <= a.len(),
            None => true,
        },
    decreases a.len(),
{
    if a[0] >= 128 {
        lemma_read_leb128_prefix(a.drop_first(), b);
        assert((a + b).drop_first() =~= a.drop_first() + b);
    }
}

/// Splitting a concatenation of two runs of sections splits each.
proof fn lemma_split_concat(a: Seq<u8>, b: Seq<u8>)
    requires
        split_sections(a) is Some,
    ensures
        split_sections(a + b) == match split_sections(b) {
            Some(t) => Some(split_sections(a)->0 + t),
            None => None::<Seq<RawSection>>,
        },
    decreases a.len(),
{
    if a.len() == 0 {
        assert(a + b =~= b);
        match split_sections(b) {
            Some(t) => assert(Seq::<RawSection>::empty() + t =~= t),
            None => {},
        }
    } else {
        let ab = a + b;
        lemma_read_leb128_prefix(a.drop_first(), b);
        assert(ab.drop_first() =~= a.drop_first() + b);
        let (len, k) = read_leb128(a.drop_first())->0;
        let tail = a.subrange((1 + k + len) as int, a.len() as int);
        lemma_split_concat(tail, b);
        assert(ab.subrange((1 + k + len) as int, ab.len() as int) =~= tail + b);
        assert(ab.subrange((1 + k) as int, (1 + k + len) as int) =~= a.subrange(
            (1 + k) as int,
            (1 + k + len) as int,
        ));
        let first = seq![RawSection { id: a[0], payload: a.subrange((1 + k) as int, (1 + k + len) as int) }];
        match split_sections(b) {
            Some(t) => {
                let rest = split_sections(tail)->0;
                assert(first + (rest + t) =~= (first + rest) + t);
            },
            None => {},
        }
    }
}

/// A single section splits into itself.
proof fn lemma_split_one(id: u8, payload: Seq<u8>)
    ensures
        split_sections(section_bytes(id, payload)) == Some(
            seq![RawSection { id, payload }],
        ),
{
    let s = section_bytes(id, payload);
    lemma_read_leb128(payload.len(), payload);
    lemma_leb128_len(payload.len());
    assert(s.drop_first() =~= leb128(payload.len()) + payload);
    let k = leb128(payload.len()).len();
    assert(s.subrange((1 + k) as int, (1 + k + payload.len()) as int) =~= payload);
    assert(s.subrange((1 + k + payload.len()) as int, s.len() as int) =~= Seq::<u8>::empty());
    assert(split_sections(Seq::<u8>::empty()) == Some(Seq::<RawSection>::empty()));
    assert(seq![RawSection { id, payload }] + Seq::<RawSection>::empty() =~= seq![RawSection { id, payload }]);
}

/// The header built for a content, followed by that content, is the custom
/// section that holds it, and that section reads back as its name and content.
pub proof fn lemma_custom_section_bytes(name: Seq<u8>, content: Seq<u8>)
    ensures
        custom_header(name, content.len()) + content == custom_section(name, content),
        custom_parts(custom_raw(name, content)) == Some((name, content)),
{
    let p = custom_payload(name, content);
    assert(p.len() == leb128(name.len()).len() + name.len() + content.len());
    assert(custom_header(name, content.len()) + content =~= custom_section(name, content));
    lemma_read_leb128(name.len(), name + content);
    assert(p =~= leb128(name.len()) + (name + content));
    let k = leb128(name.len()).len();
    assert(p.subrange(k as int, (k + name.len()) as int) =~= name);
    assert(p.subrange((k + name.len()) as int, p.len() as int) =~= content);
}

/// Appending a custom section named `name` with content `content` to a module
/// that holds no section of that name gives a module that reads back as the
/// old sections followed by exactly one section of that name, which holds
/// `content`.
pub proof fn lemma_append_then_parse(m: Seq<u8>, name: Seq<u8>, content: Seq<u8>)
    requires
        module_sections(m) is Some,
        count_named(module_sections(m)->0, name) == 0,
    ensures
        module_sections(m + custom_header(name, content.len()) + content) == Some(
            module_sections(m)->0.push(custom_raw(name, content)),
        ),
        count_named(module_sections(m)->0.push(custom_raw(name, content)), name) == 1,
        custom_parts(custom_raw(name, content)) == Some((name, content)),
{
    let secs = module_sections(m)->0;
    let out = m + custom_header(name, content.len()) + content;
    lemma_custom_section_bytes(name, content);
    let sec = custom_section(name, content);
    assert(out =~= m + sec);
    let body = m.subrange(8, m.len() as int);
    assert(out.subrange(8, out.len() as int) =~= body + sec);
    lemma_split_one(CUSTOM_SECTION_ID, custom_payload(name, content));
    lemma_split_concat(body, sec);
    assert(secs + seq![custom_raw(name, content)] =~= secs.push(custom_raw(name, content)));
    assert(secs.push(custom_raw(name, content)).drop_last() =~= secs);
}

/// Stripping a name leaves no section of that name.
pub proof fn lemma_strip_removes_all(secs: Seq<RawSection>, name: Seq<u8>)
    ensures
        count_named(strip_named(secs, name), name) == 0,
    decreases secs.len(),
{
    reveal(Seq::filter);
    if secs.len() > 0 {
        lemma_strip_removes_all(secs.drop_last(), name);
        let sub = strip_named(secs.drop_last(), name);
        if !is_named(secs.last(), name) {
            assert(sub.push(secs.last()).drop_last() =~= sub);
        }
    }
}

/// Stripping a name that no section has changes nothing.
pub proof fn lemma_strip_absent(secs: Seq<RawSection>, name: Seq<u8>)
    requires
        count_named(secs, name) == 0,
    ensures
        strip_named(secs, name) == secs,
    decreases secs.len(),
{
    reveal(Seq::filter);
    if secs.len() > 0 {
        lemma_strip_absent(secs.drop_last(), name);
        assert(secs.drop_last().push(secs.last()) =~= secs);
    }
}

/// Stripping a name a second time changes nothing.
pub proof fn lemma_strip_idempotent(secs: Seq<RawSection>, name: Seq<u8>)
    ensures
        strip_named(strip_named(secs, name), name) == strip_named(secs, name),
{
    lemma_strip_removes_all(secs, name);
    lemma_strip_absent(strip_named(secs, name), name);
}

/// Rewriting with the same name twice leaves exactly one section of that
/// name, the last one, which holds the latest content.
pub proof fn lemma_rewrite_twice(
    secs: Seq<RawSection>,
    name: Seq<u8>,
    first: Seq<u8>,
    second: Seq<u8>,
)
    ensures
        count_named(rewrite_sections(rewrite_sections(secs, name, first), name, second), name)
            == 1,
        rewrite_sections(rewrite_sections(secs, name, first), name, second).last() == custom_raw(
            name,
            second,
        ),
{
    let once = rewrite_sections(secs, name, first);
    let twice = rewrite_sections(once, name, second);
    lemma_strip_removes_all(once, name);
    lemma_custom_section_bytes(name, second);
    assert(twice.drop_last() =~= strip_named(once, name));
}

/// Builds what precedes the content of a custom section named `name` whose
/// content is `content_len` bytes long: the id byte, the payload length, the
/// name's length and the name. Fails when the payload length does not fit a
/// `usize`.
pub fn custom_section_header(name: &[u8], content_len: u64) -> (r: Result<Vec<u8>, RewriteError>)
    ensures
        match r {
            Ok(h) => h@ == custom_header(name@, content_len as nat),
            Err(e) => e == RewriteError::IntegerOverflow,
        },
        r is Err <==> leb128(name@.len()).len() + name@.len() + content_len > usize::MAX,
{
    let name_len = encode_leb128(name.len());
    if content_len as u128 > usize::MAX as u128 {
        return Err(RewriteError::IntegerOverflow);
    }
    let content = content_len as usize;
    if name_len.len() > usize::MAX - name.len() {
        return Err(RewriteError::IntegerOverflow);
    }
    let prefix = name_len.len() + name.len();
    if content > usize::MAX - prefix {
        return Err(RewriteError::IntegerOverflow);
    }
    let total = prefix + content;
    let mut out: Vec<u8> = Vec::new();
    out.push(CUSTOM_SECTION_ID);
    let total_bytes = encode_leb128(total);
    append_bytes(&mut out, total_bytes.as_slice());
    append_bytes(&mut out, name_len.as_slice());
    append_bytes(&mut out, name);
    Ok(out)
}

/// Appends `src` to `dst`.
pub(crate) fn append_bytes(dst: &mut Vec<u8>, src: &[u8])
    ensures
        final(dst)@ == old(dst)@ + src@,
{
    let mut i: usize = 0;
    while i < src.len()
        invariant
            i <= src@.len(),
            dst@ == old(dst)@ + src@.subrange(0, i as int),
        decreases src@.len() - i,
    {
        dst.push(src[i]);
        i = i + 1;
        assert(src@.subrange(0, i as int) =~= src@.subrange(0, i - 1) + seq![src@[i - 1]]);
    }
    assert(src@.subrange(0, src@.len() as int) =~= src@);
}

} // verus!
