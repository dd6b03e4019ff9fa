//! PO translation files: the messages polib reads from them, and the shape
//! of text that polib reads without panicking.
use polib::message::MessageView;
use vstd::prelude::*;
use crate::bytes::{bytes_start_with, starts_with};
use vstd::utf8::{
    decode_first_codepoint, encode_utf8, length_of_first_scalar, pop_first_scalar, valid_first_scalar,
    valid_utf8,
};

verus! {

broadcast use vstd::string::group_string_axioms;

/// One message of a PO file, as polib reports it.
pub struct PoMessage {
    pub msgctxt: Option<String>,
    pub msgid: String,
    pub msgstr: Option<String>,
    pub msgstr_plural: Option<Vec<String>>,
    pub is_translated: bool,
    pub is_fuzzy: bool,
    pub is_plural: bool,
}

/// A message as plain values: (msgctxt, msgid, msgstr, msgstr_plural,
/// translated, fuzzy, plural).
pub type PoMessageView = (
    Option<Seq<char>>,
    Seq<char>,
    Option<Seq<char>>,
    Option<Seq<Seq<char>>>,
    bool,
    bool,
    bool,
);

impl View for PoMessage {
    type V = PoMessageView;

    open spec fn view(&self) -> PoMessageView {
        (
            match self.msgctxt {
                Some(c) => Some(c@),
                None => None,
            },
            self.msgid@,
            match self.msgstr {
                Some(s) => Some(s@),
                None => None,
            },
            match self.msgstr_plural {
                Some(p) => Some(p@.map_values(|x: String| x@)),
                None => None,
            },
            self.is_translated,
            self.is_fuzzy,
            self.is_plural,
        )
    }
}

/// The views of a list of messages.
pub open spec fn message_views(v: Seq<PoMessage>) -> Seq<PoMessageView> {
    v.map_values(|m: PoMessage| m@)
}

/// The messages that polib's `parse_from_reader` reads from the text `content`
/// (in catalog order), or `None` where it reports an error.
pub uninterp spec fn spec_po_messages(content: Seq<char>) -> Option<Seq<PoMessageView>>;

/// The byte `b` continues a UTF-8 sequence.
pub open spec fn is_continuation(b: u8) -> bool {
    0x80 <= b && b < 0xc0
}

/// `&t[1..t.len() - 1]` is a valid slice of the string whose bytes are `t`.
pub open spec fn inner_slice_ok(t: Seq<u8>) -> bool {
    t.len() >= 2 && !is_continuation(t[1]) && !is_continuation(t[t.len() - 1])
}

/// The line prefixes that start a comment field.
pub open spec fn header_prefixes() -> Seq<Seq<u8>> {
    seq![encode_utf8("# "@), encode_utf8("#. "@), encode_utf8("#: "@), encode_utf8("#, "@)]
}

/// The line prefixes that start a content field.
pub open spec fn content_prefixes() -> Seq<Seq<u8>> {
    seq![
        encode_utf8("msgctxt "@),
        encode_utf8("msgid "@),
        encode_utf8("msgid_plural "@),
        encode_utf8("msgstr "@),
        encode_utf8("msgstr[0] "@),
        encode_utf8("msgstr[1] "@),
        encode_utf8("msgstr[2] "@),
        encode_utf8("msgstr[3] "@),
        encode_utf8("msgstr[4] "@),
        encode_utf8("msgstr[5] "@),
        encode_utf8("msgstr[6] "@),
        encode_utf8("msgstr[7] "@),
        encode_utf8("msgstr[8] "@),
        encode_utf8("msgstr[9] "@),
    ]
}

/// The line without a trailing carriage return.
pub open spec fn strip_cr(l: Seq<u8>) -> Seq<u8> {
    if l.len() > 0 && l.last() == 13u8 {
        l.drop_last()
    } else {
        l
    }
}

/// Reading line `l` selects a field to fill.
pub open spec fn sets_field(l: Seq<u8>) -> bool {
    ||| l.len() > 1 && l[0] == 35u8 && exists|i: int|
        0 <= i < header_prefixes().len() && starts_with(l, #[trigger] header_prefixes()[i])
    ||| l.len() > 0 && l[0] == 109u8 && exists|i: int|
        0 <= i < content_prefixes().len() && starts_with(l, #[trigger] content_prefixes()[i])
}

/// polib reads line `l` without panicking, when `field_set` tells whether
/// an earlier line selected a field: a lone "#" or a continuation line
/// needs a field, and the quoted part of a line must be a valid slice.
pub open spec fn line_safe(l: Seq<u8>, field_set: bool) -> bool {
    if l.len() == 0 {
        true
    } else if l[0] == 35u8 {
        l.len() > 1 || field_set
    } else if l[0] == 109u8 {
        forall|i: int|
            0 <= i < content_prefixes().len() && starts_with(l, #[trigger] content_prefixes()[i])
                ==> inner_slice_ok(l.subrange(content_prefixes()[i].len() as int, l.len() as int))
    } else if l[0] == 34u8 {
        field_set && inner_slice_ok(l)
    } else {
        true
    }
}

/// The capacity of the line reader that polib reads through (linereader's
/// default buffer): a longer line reaches polib in pieces of this many bytes.
pub const LINE_BUFFER: usize = 65536;

/// polib reads the piece `c` of a line without panicking, or stops at it
/// with an error where it is not UTF-8.
pub open spec fn piece_safe(c: Seq<u8>, field_set: bool) -> bool {
    !valid_utf8(c) || line_safe(strip_cr(c), field_set)
}

/// The rest `s` of the text is read safely, when the piece of the current
/// line read so far is `cur` and `field_set` tells whether an earlier line
/// selected a field. A piece ends at a new line, when it fills the line
/// reader's buffer, or at the end of the text; a piece that is not UTF-8
/// ends the reading with an error.
pub open spec fn po_safe_from(s: Seq<u8>, cur: Seq<u8>, field_set: bool) -> bool
    decreases s.len(), if cur.len() >= LINE_BUFFER { 1int } else { 0int },
{
    if cur.len() >= LINE_BUFFER {
        if valid_utf8(cur) {
            line_safe(strip_cr(cur), field_set) && po_safe_from(
                s,
                Seq::empty(),
                field_set || sets_field(strip_cr(cur)),
            )
        } else {
            true
        }
    } else if s.len() == 0 {
        piece_safe(cur, field_set)
    } else if s[0] == 10u8 {
        if valid_utf8(cur) {
            line_safe(strip_cr(cur), field_set) && po_safe_from(
                s.drop_first(),
                Seq::empty(),
                field_set || sets_field(strip_cr(cur)),
            )
        } else {
            true
        }
    } else {
        po_safe_from(s.drop_first(), cur.push(s[0]), field_set)
    }
}

/// polib parses the text `content` without panicking: each piece of a
/// line that it reads is safe in the sense of `line_safe`.
pub open spec fn po_text_is_safe(content: Seq<char>) -> bool {
    po_safe_from(encode_utf8(content), Seq::empty(), false)
}

/// Whether the bytes from `i` on begin with a well-formed encoding of one
/// scalar, and if so its length.
fn first_scalar_len(b: &[u8], i: usize) -> (res: Option<usize>)
    requires
        i < b@.len(),
    ensures
        match res {
            Some(l) => valid_first_scalar(b@.subrange(i as int, b@.len() as int)) && l == length_of_first_scalar(
                b@.subrange(i as int, b@.len() as int),
            ),
            None => !valid_first_scalar(b@.subrange(i as int, b@.len() as int)),
        },
{
    let ghost s = b@.subrange(i as int, b@.len() as int);
    let n = b.len();
    let b0 = b[i];
    assert(s[0] == b0);
    if b0 <= 0x7f {
        return Some(1);
    }
    if 0xc0 <= b0 && b0 <= 0xdf {
        if n - i < 2 {
            return None;
        }
        let b1 = b[i + 1];
        assert(s[1] == b1);
        if !(0x80 <= b1 && b1 <= 0xbf) {
            return None;
        }
        let cp: u32 = (((b0 & 0x1F) as u32) << 6) | ((b1 & 0x3f) as u32);
        assert(cp == decode_first_codepoint(s));
        if 0x80 <= cp && !(0xD800 <= cp && cp <= 0xDFFF) {
            return Some(2);
        }
        return None;
    }
    if 0xe0 <= b0 && b0 <= 0xef {
        if n - i < 3 {
            return None;
        }
        let b1 = b[i + 1];
        let b2 = b[i + 2];
        assert(s[1] == b1 && s[2] == b2);
        if !(0x80 <= b1 && b1 <= 0xbf && 0x80 <= b2 && b2 <= 0xbf) {
            return None;
        }
        let cp: u32 = (((b0 & 0x0F) as u32) << 12) | (((b1 & 0x3f) as u32) << 6) | ((b2 & 0x3f) as u32);
        assert(cp == decode_first_codepoint(s));
        if 0x800 <= cp && !(0xD800 <= cp && cp <= 0xDFFF) {
            return Some(3);
        }
        return None;
    }
    if 0xf0 <= b0 && b0 <= 0xf7 {
        if n - i < 4 {
            return None;
        }
        let b1 = b[i + 1];
        let b2 = b[i + 2];
        let b3 = b[i + 3];
        assert(s[1] == b1 && s[2] == b2 && s[3] == b3);
        if !(0x80 <= b1 && b1 <= 0xbf && 0x80 <= b2 && b2 <= 0xbf && 0x80 <= b3 && b3 <= 0xbf) {
            return None;
        }
        let cp: u32 = (((b0 & 0x07) as u32) << 18) | (((b1 & 0x3f) as u32) << 12) | (((b2 & 0x3f) as u32) << 6)
            | ((b3 & 0x3f) as u32);
        assert(cp == decode_first_codepoint(s));
        if 0x10000 <= cp && cp <= 0x10ffff && !(0xD800 <= cp && cp <= 0xDFFF) {
            return Some(4);
        }
        return None;
    }
    None
}

/// Whether `b` is UTF-8: a sequence of well-formed encodings of scalars,
/// as `std::str::from_utf8` accepts it.
fn is_utf8(b: &[u8]) -> (res: bool)
    ensures
        res == valid_utf8(b@),
{
    let n = b.len();
    let mut i: usize = 0;
    assert(b@.subrange(0, n as int) =~= b@);
    while i < n
        invariant
            n == b@.len(),
            i <= n,
            valid_utf8(b@) == valid_utf8(b@.subrange(i as int, n as int)),
        decreases n - i,
    {
        let ghost s = b@.subrange(i as int, n as int);
        match first_scalar_len(b, i) {
            None => {
                return false;
            },
            Some(l) => {
                assert(pop_first_scalar(s) =~= b@.subrange(i + l, n as int));
                i = i + l;
            },
        }
    }
    assert(b@.subrange(i as int, n as int) =~= Seq::<u8>::empty());
    true
}

/// The header prefixes, as strings.
fn header_prefix_strs() -> (res: Vec<&'static str>)
    ensures
        res@.map_values(|s: &str| encode_utf8(s@)) == header_prefixes(),
{
    let v = vec!["# ", "#. ", "#: ", "#, "];
    assert(v@.map_values(|s: &str| encode_utf8(s@)) =~= header_prefixes());
    v
}

/// The content prefixes, as strings.
fn content_prefix_strs() -> (res: Vec<&'static str>)
    ensures
        res@.map_values(|s: &str| encode_utf8(s@)) == content_prefixes(),
{
    let v = vec![
        "msgctxt ", "msgid ", "msgid_plural ", "msgstr ", "msgstr[0] ", "msgstr[1] ",
        "msgstr[2] ", "msgstr[3] ", "msgstr[4] ", "msgstr[5] ", "msgstr[6] ", "msgstr[7] ",
        "msgstr[8] ", "msgstr[9] ",
    ];
    assert(v@.map_values(|s: &str| encode_utf8(s@)) =~= content_prefixes());
    v
}

fn is_continuation_byte(b: u8) -> (res: bool)
    ensures
        res == is_continuation(b),
{
    0x80 <= b && b < 0xc0
}

fn inner_slice_is_ok(t: &[u8]) -> (res: bool)
    ensures
        res == inner_slice_ok(t@),
{
    t.len() >= 2 && !is_continuation_byte(t[1]) && !is_continuation_byte(t[t.len() - 1])
}

/// The line `raw` without a trailing carriage return.
fn strip_cr_slice(raw: &[u8]) -> (res: &[u8])
    ensures
        res@ == strip_cr(raw@),
{
    if raw.len() > 0 && raw[raw.len() - 1] == 13 {
        let r = &raw[0..raw.len() - 1];
        assert(r@ =~= raw@.drop_last());
        r
    } else {
        raw
    }
}

/// Whether line `l` selects a field.
fn line_sets_field(l: &[u8]) -> (res: bool)
    ensures
        res == sets_field(l@),
{
    if l.len() > 1 && l[0] == 35 {
        let hs = header_prefix_strs();
        let mut i: usize = 0;
        while i < hs.len()
            invariant
                i <= hs@.len(),
                l@.len() > 1,
                l@[0] == 35u8,
                hs@.map_values(|s: &str| encode_utf8(s@)) == header_prefixes(),
                forall|j: int| 0 <= j < i ==> !starts_with(l@, #[trigger] header_prefixes()[j]),
            decreases hs@.len() - i,
        {
            assert(hs@.map_values(|s: &str| encode_utf8(s@))[i as int] == encode_utf8(hs@[i as int]@));
            if bytes_start_with(l, hs[i].as_bytes()) {
                assert(starts_with(l@, header_prefixes()[i as int]));
                return true;
            }
            i = i + 1;
        }
        return false;
    }
    if l.len() > 0 && l[0] == 109 {
        let cs = content_prefix_strs();
        let mut i: usize = 0;
        while i < cs.len()
            invariant
                i <= cs@.len(),
                l@.len() > 0,
                l@[0] == 109u8,
                cs@.map_values(|s: &str| encode_utf8(s@)) == content_prefixes(),
                forall|j: int| 0 <= j < i ==> !starts_with(l@, #[trigger] content_prefixes()[j]),
            decreases cs@.len() - i,
        {
            assert(cs@.map_values(|s: &str| encode_utf8(s@))[i as int] == encode_utf8(cs@[i as int]@));
            if bytes_start_with(l, cs[i].as_bytes()) {
                assert(starts_with(l@, content_prefixes()[i as int]));
                return true;
            }
            i = i + 1;
        }
        return false;
    }
    false
}

/// Whether polib reads line `l` without panicking.
fn line_is_safe(l: &[u8], field_set: bool) -> (res: bool)
    ensures
        res == line_safe(l@, field_set),
{
    if l.len() == 0 {
        true
    } else if l[0] == 35 {
        l.len() > 1 || field_set
    } else if l[0] == 109 {
        let cs = content_prefix_strs();
        let mut i: usize = 0;
        while i < cs.len()
            invariant
                i <= cs@.len(),
                l@.len() > 0,
                l@[0] == 109u8,
                cs@.map_values(|s: &str| encode_utf8(s@)) == content_prefixes(),
                forall|j: int|
                    0 <= j < i && starts_with(l@, #[trigger] content_prefixes()[j]) ==> inner_slice_ok(
                        l@.subrange(content_prefixes()[j].len() as int, l@.len() as int),
                    ),
            decreases cs@.len() - i,
        {
            let p = cs[i].as_bytes();
            assert(cs@.map_values(|s: &str| encode_utf8(s@))[i as int] == p@);
            if bytes_start_with(l, p) {
                let t = &l[p.len()..l.len()];
                assert(t@ == l@.subrange(p@.len() as int, l@.len() as int));
                if !inner_slice_is_ok(t) {
                    return false;
                }
            }
            i = i + 1;
        }
        true
    } else if l[0] == 34 {
        field_set && inner_slice_is_ok(l)
    } else {
        true
    }
}

/// Whether polib parses the text `content` without panicking.
pub fn po_text_safe(content: &str) -> (res: bool)
    ensures
        res == po_text_is_safe(content@),
{
    let b = content.as_bytes();
    let ghost bs = b@;
    assert(bs == encode_utf8(content@));
    let mut start: usize = 0;
    let mut i: usize = 0;
    let mut field_set = false;
    assert(bs.skip(0) =~= bs);
    assert(bs.subrange(0, 0) =~= Seq::<u8>::empty());
    while i < b.len()
        invariant
            bs == b@,
            start <= i <= bs.len(),
            i - start <= LINE_BUFFER,
            po_text_is_safe(content@) == po_safe_from(
                bs.skip(i as int),
                bs.subrange(start as int, i as int),
                field_set,
            ),
            bs == encode_utf8(content@),
        decreases 2 * (bs.len() - i) + if i - start >= LINE_BUFFER { 1int } else { 0int },
    {
        let ghost cur = bs.subrange(start as int, i as int);
        if i - start == LINE_BUFFER {
            let piece = &b[start..i];
            assert(piece@ == cur);
            if !is_utf8(piece) {
                return true;
            }
            let line = strip_cr_slice(piece);
            if !line_is_safe(line, field_set) {
                return false;
            }
            field_set = field_set || line_sets_field(line);
            start = i;
            assert(bs.subrange(start as int, i as int) =~= Seq::<u8>::empty());
        } else {
            assert(bs.skip(i as int).drop_first() =~= bs.skip(i + 1));
            assert(bs.skip(i as int)[0] == b[i as int]);
            if b[i] == 10 {
                let piece = &b[start..i];
                assert(piece@ == cur);
                if !is_utf8(piece) {
                    return true;
                }
                let line = strip_cr_slice(piece);
                if !line_is_safe(line, field_set) {
                    return false;
                }
                field_set = field_set || line_sets_field(line);
                start = i + 1;
                i = i + 1;
                assert(bs.subrange(start as int, i as int) =~= Seq::<u8>::empty());
            } else {
                i = i + 1;
                assert(bs.subrange(start as int, i as int) =~= cur.push(bs[i - 1]));
            }
        }
    }
    assert(bs.skip(i as int) =~= Seq::<u8>::empty());
    let piece = &b[start..b.len()];
    assert(piece@ == bs.subrange(start as int, i as int));
    if i - start == LINE_BUFFER {
        if !is_utf8(piece) {
            return true;
        }
        let line = strip_cr_slice(piece);
        assert(strip_cr(Seq::<u8>::empty()) =~= Seq::<u8>::empty());
        assert(po_safe_from(
            Seq::<u8>::empty(),
            Seq::<u8>::empty(),
            field_set || sets_field(strip_cr(piece@)),
        ));
        line_is_safe(line, field_set)
    } else {
        let line = strip_cr_slice(piece);
        !is_utf8(piece) || line_is_safe(line, field_set)
    }
}

/// Calls polib's `po_file::parse_from_reader` on the bytes of `content`
/// and reports each message of the catalog through its `MessageView`
/// accessors. The messages are named by `spec_po_messages`; the text of an
/// error is polib's and is not stated.
#[verifier::external_body]
pub(crate) fn parse_po_messages(content: &str) -> (res: Result<Vec<PoMessage>, String>)
    requires
        po_text_is_safe(content@),
    ensures
        match res {
            Ok(v) => spec_po_messages(content@) == Some(message_views(v@)),
            Err(_) => spec_po_messages(content@) is None,
        },
{
    match polib::po_file::parse_from_reader(content.as_bytes()) {
        Ok(catalog) => Ok(catalog.messages().map(|m| PoMessage {
            msgctxt: m.msgctxt().map(String::from),
            msgid: m.msgid().to_string(),
            msgstr: m.msgstr().ok().map(String::from),
            msgstr_plural: m.msgstr_plural().ok().cloned(),
            is_translated: m.is_translated(),
            is_fuzzy: m.is_fuzzy(),
            is_plural: m.is_plural(),
        }).collect()),
        Err(e) => Err(e.to_string()),
    }
}

} // verus!
