//! The textual form of [`Document`] values: a flow-style YAML subset.
//!
//! Serialization emits one line of flow-style YAML: objects as
//! `{key: value, ...}`, lists as `[a, b]`, text plain where it is safe and
//! double-quoted with escapes otherwise. That text is also valid JSON apart
//! from plain scalars, and the verified parser reads exactly this subset
//! back. Documents written in other YAML styles (block mappings, block
//! scalars, single quotes), and flow scalars whose plain reading is YAML's
//! to make (tilde and capitalized nulls and booleans, signed or radix or
//! zero-led numbers), are first normalized to JSON by the YAML library and
//! then read by the same verified parser.

use vstd::prelude::*;

verus! {

use crate::document::{
    DocView,
    Document,
    doc_view,
    docs_view,
    group_document_views,
    pairs_view,
    spec_lookup,
};
use crate::text::{ascii_lower_char, lower_char, lowered_eq, push_char, spec_lower};

// ---------------------------------------------------------------------------
// Plain scalars
// ---------------------------------------------------------------------------

/// Whether a character may begin a plain (unquoted) scalar the serializer
/// emits: an ASCII letter or underscore.
pub open spec fn is_plain_first(c: char) -> bool {
    ||| (97 <= c as u32 && c as u32 <= 122)
    ||| (65 <= c as u32 && c as u32 <= 90)
    ||| c as u32 == 95
}

/// Whether a character may appear in a plain scalar the serializer emits:
/// an ASCII letter, digit, underscore, or hyphen.
pub open spec fn is_plain_rest(c: char) -> bool {
    ||| is_plain_first(c)
    ||| (48 <= c as u32 && c as u32 <= 57)
    ||| c as u32 == 45
}

/// Whether the text, lowercased, spells a word that YAML readers may take
/// for a null or boolean scalar.
pub open spec fn spec_reserved_word(t: Seq<char>) -> bool {
    ||| spec_lower(t) == "null"@
    ||| spec_lower(t) == "true"@
    ||| spec_lower(t) == "false"@
    ||| spec_lower(t) == "yes"@
    ||| spec_lower(t) == "no"@
    ||| spec_lower(t) == "on"@
    ||| spec_lower(t) == "off"@
}

/// Whether text is emitted as a plain scalar: nonempty, starting with a
/// letter or underscore, containing only letters, digits, underscores and
/// hyphens, and not spelling a reserved word.
pub open spec fn is_plain_safe(t: Seq<char>) -> bool {
    &&& t.len() > 0
    &&& is_plain_first(t[0])
    &&& (forall|k: int| 0 <= k < t.len() ==> is_plain_rest(#[trigger] t[k]))
    &&& !spec_reserved_word(t)
}

fn plain_first(c: char) -> (r: bool)
    ensures
        r == is_plain_first(c),
{
    let u = c as u32;
    (97 <= u && u <= 122) || (65 <= u && u <= 90) || u == 95
}

fn plain_rest(c: char) -> (r: bool)
    ensures
        r == is_plain_rest(c),
{
    let u = c as u32;
    plain_first(c) || (48 <= u && u <= 57) || u == 45
}

/// Whether the text may be written as a plain scalar.
pub fn plain_safe(t: &str) -> (r: bool)
    ensures
        r == is_plain_safe(t@),
{
    let n = t.unicode_len();
    if n == 0 {
        return false;
    }
    if !plain_first(t.get_char(0)) {
        return false;
    }
    let mut i: usize = 0;
    while i < n
        invariant
            i <= n,
            n == t@.len(),
            forall|k: int| 0 <= k < i ==> is_plain_rest(#[trigger] t@[k]),
        decreases n - i,
    {
        if !plain_rest(t.get_char(i)) {
            proof {
                assert(!(forall|k: int| 0 <= k < t@.len() ==> is_plain_rest(#[trigger] t@[k])))
                    by {
                    assert(!is_plain_rest(t@[i as int]));
                }
            }
            return false;
        }
        i += 1;
    }
    let reserved = lowered_eq(t, "null") || lowered_eq(t, "true") || lowered_eq(t, "false")
        || lowered_eq(t, "yes") || lowered_eq(t, "no") || lowered_eq(t, "on") || lowered_eq(
        t,
        "off",
    );
    !reserved
}

// ---------------------------------------------------------------------------
// Specification of emission
// ---------------------------------------------------------------------------

/// The character for a decimal digit value.
pub open spec fn digit_char(d: int) -> char {
    ((48 + d) as u8) as char
}

/// The character for a hexadecimal digit value, lowercase.
pub open spec fn hex_char(d: int) -> char {
    if d < 10 {
        digit_char(d)
    } else {
        ((87 + d) as u8) as char
    }
}

/// The decimal digits of a nonnegative integer.
pub open spec fn spec_nat_chars(n: int) -> Seq<char>
    recommends
        n >= 0,
    decreases n,
{
    if n < 10 {
        seq![digit_char(n)]
    } else {
        spec_nat_chars(n / 10).push(digit_char(n % 10))
    }
}

/// The decimal rendering of an integer.
pub open spec fn spec_int_chars(n: int) -> Seq<char> {
    if n < 0 {
        seq!['-'] + spec_nat_chars(-n)
    } else {
        spec_nat_chars(n)
    }
}

/// The escape sequence for one character inside a double-quoted scalar.
pub open spec fn spec_escape_char(c: char) -> Seq<char> {
    if c == '"' {
        seq!['\\', '"']
    } else if c == '\\' {
        seq!['\\', '\\']
    } else if c == '\n' {
        seq!['\\', 'n']
    } else if c == '\t' {
        seq!['\\', 't']
    } else if c == '\r' {
        seq!['\\', 'r']
    } else if (c as u32) < 32 {
        seq!['\\', 'u', '0', '0', hex_char(c as u32 as int / 16), hex_char(c as u32 as int % 16)]
    } else {
        seq![c]
    }
}

/// The escaped body of a double-quoted scalar.
pub open spec fn spec_escape(t: Seq<char>) -> Seq<char>
    decreases t.len(),
{
    if t.len() == 0 {
        Seq::empty()
    } else {
        spec_escape_char(t[0]) + spec_escape(t.drop_first())
    }
}

/// The rendering of text: plain where safe, double-quoted otherwise.
pub open spec fn spec_text_chars(t: Seq<char>) -> Seq<char> {
    if is_plain_safe(t) {
        t
    } else {
        seq!['"'] + spec_escape(t) + seq!['"']
    }
}

/// The rendering of a document value.
pub open spec fn spec_emit(d: DocView) -> Seq<char>
    decreases d, 0int,
{
    match d {
        DocView::Null => "null"@,
        DocView::Bool(b) => if b {
            "true"@
        } else {
            "false"@
        },
        DocView::Int(n) => spec_int_chars(n),
        DocView::Number(t) => t,
        DocView::Text(t) => spec_text_chars(t),
        DocView::List(items) => if items.len() == 0 {
            "[]"@
        } else {
            seq!['['] + spec_emit_items(items) + seq![']']
        },
        DocView::Object(pairs) => if pairs.len() == 0 {
            "{}"@
        } else {
            seq!['{'] + spec_emit_members(pairs) + seq!['}']
        },
    }
}

/// The comma-separated renderings of a nonempty item sequence.
pub open spec fn spec_emit_items(items: Seq<DocView>) -> Seq<char>
    recommends
        items.len() > 0,
    decreases items, 1int,
    via spec_emit_items_decreases
{
    if items.len() == 0 {
        Seq::empty()
    } else if items.len() == 1 {
        spec_emit(items[0])
    } else {
        spec_emit(items[0]) + seq![',', ' '] + spec_emit_items(items.drop_first())
    }
}

/// The comma-separated `key: value` renderings of a nonempty pair sequence.
pub open spec fn spec_emit_members(pairs: Seq<(Seq<char>, DocView)>) -> Seq<char>
    recommends
        pairs.len() > 0,
    decreases pairs, 1int,
    via spec_emit_members_decreases
{
    if pairs.len() == 0 {
        Seq::empty()
    } else if pairs.len() == 1 {
        spec_text_chars(pairs[0].0) + seq![':', ' '] + spec_emit(pairs[0].1)
    } else {
        spec_text_chars(pairs[0].0) + seq![':', ' '] + spec_emit(pairs[0].1) + seq![',', ' ']
            + spec_emit_members(pairs.drop_first())
    }
}

#[via_fn]
proof fn spec_emit_items_decreases(items: Seq<DocView>) {
    if items.len() > 0 {
        assert(decreases_to!(items => items[0]));
        if items.len() > 1 {
            assert(decreases_to!(items => items.subrange(1, items.len() as int)));
        }
    }
}

#[via_fn]
proof fn spec_emit_members_decreases(pairs: Seq<(Seq<char>, DocView)>) {
    if pairs.len() > 0 {
        assert(decreases_to!(pairs => pairs[0]));
        assert(decreases_to!(pairs[0] => pairs[0].1));
        if pairs.len() > 1 {
            assert(decreases_to!(pairs => pairs.subrange(1, pairs.len() as int)));
        }
    }
}

// ---------------------------------------------------------------------------
// The writer
// ---------------------------------------------------------------------------

fn hex_digit(d: u32) -> (r: char)
    requires
        d < 16,
    ensures
        r == hex_char(d as int),
{
    if d < 10 {
        ((48 + d) as u8) as char
    } else {
        ((87 + d) as u8) as char
    }
}

/// Append the decimal digits of `n`.
fn write_nat(n: u64, out: &mut String)
    ensures
        final(out)@ == old(out)@ + spec_nat_chars(n as int),
    decreases n,
{
    if n < 10 {
        push_char(out, ((48 + n) as u8) as char);
        proof {
            assert(final(out)@ =~= old(out)@ + spec_nat_chars(n as int));
        }
    } else {
        let ghost mid = out@;
        write_nat(n / 10, out);
        push_char(out, ((48 + n % 10) as u8) as char);
        proof {
            assert(final(out)@ =~= old(out)@ + spec_nat_chars(n as int));
        }
    }
}

/// Append the decimal rendering of `n`.
fn write_int(n: i64, out: &mut String)
    ensures
        final(out)@ == old(out)@ + spec_int_chars(n as int),
{
    if n >= 0 {
        write_nat(n as u64, out);
    } else {
        push_char(out, '-');
        let magnitude: u64 = ((-(n + 1)) as u64) + 1;
        proof {
            assert(magnitude as int == -(n as int));
        }
        write_nat(magnitude, out);
        proof {
            assert(final(out)@ =~= old(out)@ + spec_int_chars(n as int));
        }
    }
}

proof fn lemma_escape_snoc(u: Seq<char>, c: char)
    ensures
        spec_escape(u.push(c)) == spec_escape(u) + spec_escape_char(c),
    decreases u.len(),
{
    if u.len() == 0 {
        assert(u.push(c)[0] == c);
        assert(u.push(c).drop_first() =~= Seq::<char>::empty());
        assert(spec_escape(Seq::<char>::empty()) == Seq::<char>::empty());
        assert(spec_escape(u.push(c)) =~= spec_escape(u) + spec_escape_char(c));
    } else {
        let t = u.push(c);
        assert(t[0] == u[0]);
        assert(t.drop_first() =~= u.drop_first().push(c));
        lemma_escape_snoc(u.drop_first(), c);
        assert(spec_escape(t) == spec_escape_char(u[0]) + spec_escape(t.drop_first()));
        assert(spec_escape(u) == spec_escape_char(u[0]) + spec_escape(u.drop_first()));
        assert(spec_escape(t) =~= spec_escape(u) + spec_escape_char(c));
    }
}

/// Append the escaped body of text for a double-quoted scalar.
fn write_escaped(t: &str, out: &mut String)
    ensures
        final(out)@ == old(out)@ + spec_escape(t@),
{
    let n = t.unicode_len();
    let mut i: usize = 0;
    proof {
        assert(t@.subrange(0, 0) =~= Seq::<char>::empty());
        assert(out@ =~= old(out)@ + spec_escape(t@.subrange(0, 0)));
    }
    while i < n
        invariant
            i <= n,
            n == t@.len(),
            out@ == old(out)@ + spec_escape(t@.subrange(0, i as int)),
        decreases n - i,
    {
        let ghost prefix = t@.subrange(0, i as int);
        let ghost before = out@;
        let c = t.get_char(i);
        if c == '"' {
            push_char(out, '\\');
            push_char(out, '"');
        } else if c == '\\' {
            push_char(out, '\\');
            push_char(out, '\\');
        } else if c == '\n' {
            push_char(out, '\\');
            push_char(out, 'n');
        } else if c == '\t' {
            push_char(out, '\\');
            push_char(out, 't');
        } else if c == '\r' {
            push_char(out, '\\');
            push_char(out, 'r');
        } else {
            let u = c as u32;
            if u < 32 {
                push_char(out, '\\');
                push_char(out, 'u');
                push_char(out, '0');
                push_char(out, '0');
                push_char(out, hex_digit(u / 16));
                push_char(out, hex_digit(u % 16));
            } else {
                push_char(out, c);
            }
        }
        proof {
            assert(out@ =~= before + spec_escape_char(c));
            lemma_escape_snoc(prefix, c);
            assert(t@.subrange(0, i + 1) =~= prefix.push(c));
            assert(out@ =~= old(out)@ + spec_escape(t@.subrange(0, i + 1)));
        }
        i += 1;
    }
    proof {
        assert(t@.subrange(0, n as int) =~= t@);
    }
}

/// Append the rendering of text: plain where safe, double-quoted otherwise.
fn write_text(t: &str, out: &mut String)
    ensures
        final(out)@ == old(out)@ + spec_text_chars(t@),
{
    if plain_safe(t) {
        out.append(t);
    } else {
        push_char(out, '"');
        write_escaped(t, out);
        push_char(out, '"');
        proof {
            assert(final(out)@ =~= old(out)@ + spec_text_chars(t@));
        }
    }
}

/// Append the rendering of a document value.
pub fn write_document(d: &Document, out: &mut String)
    ensures
        final(out)@ == old(out)@ + spec_emit(d@),
    decreases *d, 0int,
{
    broadcast use group_document_views;

    match d {
        Document::Null => {
            out.append("null");
        },
        Document::Bool(b) => {
            if *b {
                out.append("true");
            } else {
                out.append("false");
            }
        },
        Document::Int(n) => {
            write_int(*n, out);
        },
        Document::Number(t) => {
            out.append(t.as_str());
        },
        Document::Text(t) => {
            write_text(t.as_str(), out);
        },
        Document::List(items) => {
            if items.len() == 0 {
                out.append("[]");
                proof {
                    assert(docs_view(items@).len() == 0);
                }
            } else {
                push_char(out, '[');
                proof {
                    assert(decreases_to!(*d => *items));
                    assert(decreases_to!(*items => items@));
                }
                write_items(items, 0, out);
                push_char(out, ']');
                proof {
                    assert(docs_view(items@).len() != 0);
                    assert(docs_view(items@).skip(0) =~= docs_view(items@));
                    assert(final(out)@ =~= old(out)@ + spec_emit(d@));
                }
            }
        },
        Document::Object(pairs) => {
            if pairs.len() == 0 {
                out.append("{}");
                proof {
                    assert(pairs_view(pairs@).len() == 0);
                }
            } else {
                push_char(out, '{');
                proof {
                    assert(decreases_to!(*d => *pairs));
                    assert(decreases_to!(*pairs => pairs@));
                }
                write_members(pairs, 0, out);
                push_char(out, '}');
                proof {
                    assert(pairs_view(pairs@).len() != 0);
                    assert(pairs_view(pairs@).skip(0) =~= pairs_view(pairs@));
                    assert(final(out)@ =~= old(out)@ + spec_emit(d@));
                }
            }
        },
    }
}

/// Append the renderings of `items[idx..]`, comma-separated.
fn write_items(items: &Vec<Document>, idx: usize, out: &mut String)
    requires
        idx < items@.len(),
    ensures
        final(out)@ == old(out)@ + spec_emit_items(docs_view(items@).skip(idx as int)),
    decreases items@, items@.len() - idx,
{
    broadcast use group_document_views;

    let ghost suffix = docs_view(items@).skip(idx as int);
    proof {
        assert(suffix[0] == docs_view(items@)[idx as int]);
        assert(decreases_to!(items@ => items@[idx as int]));
    }
    write_document(&items[idx], out);
    if idx < items.len() - 1 {
        push_char(out, ',');
        push_char(out, ' ');
        write_items(items, idx + 1, out);
        proof {
            assert(suffix.drop_first() =~= docs_view(items@).skip(idx + 1));
            assert(final(out)@ =~= old(out)@ + spec_emit_items(suffix));
        }
    } else {
        proof {
            assert(suffix.len() == 1);
            assert(final(out)@ =~= old(out)@ + spec_emit_items(suffix));
        }
    }
}

/// Append the `key: value` renderings of `pairs[idx..]`, comma-separated.
fn write_members(pairs: &Vec<(String, Document)>, idx: usize, out: &mut String)
    requires
        idx < pairs@.len(),
    ensures
        final(out)@ == old(out)@ + spec_emit_members(pairs_view(pairs@).skip(idx as int)),
    decreases pairs@, pairs@.len() - idx,
{
    broadcast use group_document_views;

    let ghost suffix = pairs_view(pairs@).skip(idx as int);
    proof {
        assert(suffix[0] == pairs_view(pairs@)[idx as int]);
        assert(decreases_to!(pairs@ => pairs@[idx as int]));
        assert(decreases_to!(pairs@[idx as int] => pairs@[idx as int].1));
    }
    write_text(pairs[idx].0.as_str(), out);
    push_char(out, ':');
    push_char(out, ' ');
    write_document(&pairs[idx].1, out);
    if idx < pairs.len() - 1 {
        push_char(out, ',');
        push_char(out, ' ');
        write_members(pairs, idx + 1, out);
        proof {
            assert(suffix.drop_first() =~= pairs_view(pairs@).skip(idx + 1));
            assert(final(out)@ =~= old(out)@ + spec_emit_members(suffix));
        }
    } else {
        proof {
            assert(suffix.len() == 1);
            assert(final(out)@ =~= old(out)@ + spec_emit_members(suffix));
        }
    }
}

/// Render a document as one line of flow-style YAML.
pub fn document_to_yaml(d: &Document) -> (r: String)
    ensures
        r@ == spec_emit(d@),
{
    let mut out = String::new();
    write_document(d, &mut out);
    proof {
        assert(out@ =~= spec_emit(d@));
    }
    out
}

// ---------------------------------------------------------------------------
// Specification of parsing
// ---------------------------------------------------------------------------

/// Whether a character is skippable whitespace between tokens.
pub open spec fn is_ws(c: char) -> bool {
    c == ' ' || c == '\t' || c == '\n' || c == '\r'
}

/// Whether a character may appear in a plain scalar token read back: anything
/// but whitespace and the flow indicators.
pub open spec fn is_plain_char(c: char) -> bool {
    &&& !is_ws(c)
    &&& c != ','
    &&& c != ':'
    &&& c != '{'
    &&& c != '}'
    &&& c != '['
    &&& c != ']'
    &&& c != '"'
}

/// The first position at or after `i` holding no whitespace.
pub open spec fn ws_end(s: Seq<char>, i: int) -> int
    decreases s.len() - i,
{
    if 0 <= i < s.len() && is_ws(s[i]) {
        ws_end(s, i + 1)
    } else {
        i
    }
}

/// The first position at or after `i` holding no plain-scalar character.
pub open spec fn plain_end(s: Seq<char>, i: int) -> int
    decreases s.len() - i,
{
    if 0 <= i < s.len() && is_plain_char(s[i]) {
        plain_end(s, i + 1)
    } else {
        i
    }
}

/// Whether a character is a decimal digit.
pub open spec fn is_digit(c: char) -> bool {
    48 <= c as u32 <= 57
}

/// The value of a decimal digit character.
pub open spec fn digit_val(c: char) -> int {
    c as u32 - 48
}

/// Whether the text consists of decimal digits only.
pub open spec fn all_digits(t: Seq<char>) -> bool {
    forall|k: int| 0 <= k < t.len() ==> is_digit(#[trigger] t[k])
}

/// The value of a decimal digit string.
pub open spec fn digits_val(t: Seq<char>) -> int
    decreases t.len(),
{
    if t.len() == 0 {
        0
    } else {
        digits_val(t.drop_last()) * 10 + digit_val(t.last())
    }
}

/// The value of a hexadecimal digit character, either case.
pub open spec fn hex_val(c: char) -> Option<int> {
    let u = c as u32;
    if 48 <= u && u <= 57 {
        Some((u - 48) as int)
    } else if 97 <= u && u <= 102 {
        Some((u - 87) as int)
    } else if 65 <= u && u <= 70 {
        Some((u - 55) as int)
    } else {
        None
    }
}

/// The first position at or after `i` holding no decimal digit.
pub open spec fn digits_end(s: Seq<char>, i: int) -> int
    decreases s.len() - i,
{
    if 0 <= i < s.len() && is_digit(s[i]) {
        digits_end(s, i + 1)
    } else {
        i
    }
}

/// Where a number token's integer part ends, starting at `i0`: a single `0`,
/// or a run of digits not beginning with `0`; negative when there is none.
pub open spec fn int_part_end(t: Seq<char>, i0: int) -> int {
    if 0 <= i0 < t.len() && is_digit(t[i0]) {
        if t[i0] == '0' {
            i0 + 1
        } else {
            digits_end(t, i0)
        }
    } else {
        -1
    }
}

/// Where a number token's optional fraction ends, starting at `i`: a `.`
/// followed by digits; `i` itself when there is no `.`; negative when the
/// `.` has no digits.
pub open spec fn frac_part_end(t: Seq<char>, i: int) -> int {
    if 0 <= i < t.len() && t[i] == '.' {
        if i + 1 < t.len() && is_digit(t[i + 1]) {
            digits_end(t, i + 1)
        } else {
            -1
        }
    } else {
        i
    }
}

/// Where a number token's optional exponent ends, starting at `i`: `e` or
/// `E`, an optional sign, and digits; `i` itself when there is no exponent;
/// negative when it is malformed.
pub open spec fn exp_part_end(t: Seq<char>, i: int) -> int {
    if 0 <= i < t.len() && (t[i] == 'e' || t[i] == 'E') {
        let j = if i + 1 < t.len() && (t[i + 1] == '+' || t[i + 1] == '-') {
            i + 2
        } else {
            i + 1
        };
        if j < t.len() && is_digit(t[j]) {
            digits_end(t, j)
        } else {
            -1
        }
    } else {
        i
    }
}

/// Whether the token spells a number in the canonical decimal shape (the
/// shape JSON uses, and the only numeric spelling the serializers emit): an
/// optional minus, an integer part without leading zeros, an optional
/// fraction, an optional exponent.
pub open spec fn spec_number_shape(t: Seq<char>) -> bool {
    let i0: int = if t.len() > 0 && t[0] == '-' {
        1
    } else {
        0
    };
    let a = int_part_end(t, i0);
    a >= 0 && frac_part_end(t, a) >= 0 && exp_part_end(t, frac_part_end(t, a)) == t.len()
}

/// Whether the token is a canonical integer: an optional minus and the
/// integer part alone.
pub open spec fn spec_int_shape(t: Seq<char>) -> bool {
    let i0: int = if t.len() > 0 && t[0] == '-' {
        1
    } else {
        0
    };
    int_part_end(t, i0) == t.len()
}

/// The value a plain scalar token denotes, where its reading is unambiguous:
/// the exact words `null`, `true` and `false`; canonical integers (into an
/// `i64`, or kept verbatim up to `u64::MAX`); other canonical numbers kept
/// verbatim; and text in the shape the serializer itself writes plain. Any
/// other token has no direct reading: the text is left to the YAML library.
pub open spec fn spec_token(t: Seq<char>) -> Option<DocView> {
    if t == "null"@ {
        Some(DocView::Null)
    } else if t == "true"@ {
        Some(DocView::Bool(true))
    } else if t == "false"@ {
        Some(DocView::Bool(false))
    } else if spec_number_shape(t) {
        if spec_int_shape(t) {
            if t[0] == '-' {
                if digits_val(t.drop_first()) <= 0x8000_0000_0000_0000 {
                    Some(DocView::Int(-digits_val(t.drop_first())))
                } else {
                    None
                }
            } else {
                if digits_val(t) <= 0x7fff_ffff_ffff_ffff {
                    Some(DocView::Int(digits_val(t)))
                } else if digits_val(t) <= 0xffff_ffff_ffff_ffff {
                    Some(DocView::Number(t))
                } else {
                    None
                }
            }
        } else {
            Some(DocView::Number(t))
        }
    } else if is_plain_safe(t) {
        Some(DocView::Text(t))
    } else {
        None
    }
}

/// The content of a double-quoted scalar from position `i` (just after the
/// opening quote) to its closing quote, unescaped, with the position after
/// the closing quote.
pub open spec fn spec_string_body(s: Seq<char>, i: int) -> Option<(Seq<char>, int)>
    decreases s.len() - i,
{
    if i < 0 || i >= s.len() {
        None
    } else if s[i] == '"' {
        Some((Seq::empty(), i + 1))
    } else if s[i] == '\\' {
        if i + 1 >= s.len() {
            None
        } else {
            let e = s[i + 1];
            if e == 'u' {
                if i + 6 > s.len() {
                    None
                } else {
                    if hex_val(s[i + 2]) is Some && hex_val(s[i + 3]) is Some && hex_val(
                        s[i + 4],
                    ) is Some && hex_val(s[i + 5]) is Some {
                        let code = hex_val(s[i + 2])->Some_0 * 4096 + hex_val(s[i + 3])->Some_0
                            * 256 + hex_val(s[i + 4])->Some_0 * 16 + hex_val(s[i + 5])->Some_0;
                        if code < 0xD800 || code >= 0xE000 {
                            match spec_string_body(s, i + 6) {
                                Some((t, j)) => Some((seq![(code as u32) as char] + t, j)),
                                None => None,
                            }
                        } else {
                            None
                        }
                    } else {
                        None
                    }
                }
            } else {
                let decoded: Option<char> = if e == '"' {
                    Some('"')
                } else if e == '\\' {
                    Some('\\')
                } else if e == '/' {
                    Some('/')
                } else if e == 'n' {
                    Some('\n')
                } else if e == 't' {
                    Some('\t')
                } else if e == 'r' {
                    Some('\r')
                } else if e == 'b' {
                    Some('\u{8}')
                } else if e == 'f' {
                    Some('\u{c}')
                } else {
                    None
                };
                match decoded {
                    Some(c) => match spec_string_body(s, i + 2) {
                        Some((t, j)) => Some((seq![c] + t, j)),
                        None => None,
                    },
                    None => None,
                }
            }
        }
    } else {
        match spec_string_body(s, i + 1) {
            Some((t, j)) => Some((seq![s[i]] + t, j)),
            None => None,
        }
    }
}

/// Fuel that suffices to parse one value starting at `i`.
pub open spec fn value_fuel(s: Seq<char>, i: int) -> nat {
    if i <= s.len() {
        (2 * (s.len() - i) + 2) as nat
    } else {
        2
    }
}

/// Fuel that suffices to parse the members of a container starting at `i`.
pub open spec fn seq_fuel(s: Seq<char>, i: int) -> nat {
    value_fuel(s, i) + 1
}

/// One value starting at or after `i` (leading whitespace skipped), with the
/// position just after it.
pub open spec fn spec_value(s: Seq<char>, i: int, fuel: nat) -> Option<(DocView, int)>
    decreases fuel,
{
    if fuel == 0 {
        None
    } else {
        let j = ws_end(s, i);
        if j >= s.len() {
            None
        } else if s[j] == '{' {
            let j2 = ws_end(s, j + 1);
            if j2 < s.len() && s[j2] == '}' {
                Some((DocView::Object(Seq::empty()), j2 + 1))
            } else {
                match spec_members(s, j + 1, (fuel - 1) as nat) {
                    Some((pairs, e)) => Some((DocView::Object(pairs), e)),
                    None => None,
                }
            }
        } else if s[j] == '[' {
            let j2 = ws_end(s, j + 1);
            if j2 < s.len() && s[j2] == ']' {
                Some((DocView::List(Seq::empty()), j2 + 1))
            } else {
                match spec_items(s, j + 1, (fuel - 1) as nat) {
                    Some((items, e)) => Some((DocView::List(items), e)),
                    None => None,
                }
            }
        } else if s[j] == '"' {
            match spec_string_body(s, j + 1) {
                Some((t, e)) => Some((DocView::Text(t), e)),
                None => None,
            }
        } else if is_plain_char(s[j]) {
            let e = plain_end(s, j);
            match spec_token(s.subrange(j, e)) {
                Some(v) => Some((v, e)),
                None => None,
            }
        } else {
            None
        }
    }
}

/// The remaining items of a list from position `i`, through the closing
/// `]`, with the position just after it.
pub open spec fn spec_items(s: Seq<char>, i: int, fuel: nat) -> Option<(Seq<DocView>, int)>
    decreases fuel,
{
    if fuel == 0 {
        None
    } else {
        match spec_value(s, i, (fuel - 1) as nat) {
            Some((v, j)) => {
                let k = ws_end(s, j);
                if k < s.len() && s[k] == ',' {
                    match spec_items(s, k + 1, (fuel - 1) as nat) {
                        Some((rest, e)) => Some((seq![v] + rest, e)),
                        None => None,
                    }
                } else if k < s.len() && s[k] == ']' {
                    Some((seq![v], k + 1))
                } else {
                    None
                }
            },
            None => None,
        }
    }
}

/// The remaining members of an object from position `i`, through the closing
/// `}`, with the position just after it.
pub open spec fn spec_members(s: Seq<char>, i: int, fuel: nat) -> Option<
    (Seq<(Seq<char>, DocView)>, int),
>
    decreases fuel,
{
    if fuel == 0 {
        None
    } else {
        let j = ws_end(s, i);
        if j >= s.len() {
            None
        } else {
            let key_end: Option<(Seq<char>, int)> = if s[j] == '"' {
                spec_string_body(s, j + 1)
            } else if is_plain_char(s[j]) && is_plain_safe(s.subrange(j, plain_end(s, j))) {
                Some((s.subrange(j, plain_end(s, j)), plain_end(s, j)))
            } else {
                None
            };
            match key_end {
                Some((key, j2)) => {
                    let k = ws_end(s, j2);
                    if k < s.len() && s[k] == ':' {
                        match spec_value(s, k + 1, (fuel - 1) as nat) {
                            Some((v, j3)) => {
                                let k2 = ws_end(s, j3);
                                if k2 < s.len() && s[k2] == ',' {
                                    match spec_members(s, k2 + 1, (fuel - 1) as nat) {
                                        Some((rest, e)) => Some((seq![(key, v)] + rest, e)),
                                        None => None,
                                    }
                                } else if k2 < s.len() && s[k2] == '}' {
                                    Some((seq![(key, v)], k2 + 1))
                                } else {
                                    None
                                }
                            },
                            None => None,
                        }
                    } else {
                        None
                    }
                },
                None => None,
            }
        }
    }
}

/// The document a whole text denotes: one value with nothing but whitespace
/// after it.
pub open spec fn spec_parse_text(s: Seq<char>) -> Option<DocView> {
    match spec_value(s, 0, value_fuel(s, 0)) {
        Some((v, j)) => if ws_end(s, j) == s.len() {
            Some(v)
        } else {
            None
        },
        None => None,
    }
}

// ---------------------------------------------------------------------------
// Well-formedness
// ---------------------------------------------------------------------------

/// Whether a document shape is representable and serializable: every integer
/// fits an `i64`, and every verbatim numeric scalar is a token that reads
/// back as itself. Every document the parser produces is well formed.
pub open spec fn wf_doc(d: DocView) -> bool
    decreases d, 0int,
    via wf_doc_decreases
{
    match d {
        DocView::Null => true,
        DocView::Bool(_) => true,
        DocView::Int(n) => i64::MIN <= n <= i64::MAX,
        DocView::Number(t) => spec_token(t) == Some(DocView::Number(t)),
        DocView::Text(_) => true,
        DocView::List(items) => wf_docs(items),
        DocView::Object(pairs) => wf_pairs(pairs),
    }
}

/// Whether every document shape in a sequence is well formed.
pub open spec fn wf_docs(s: Seq<DocView>) -> bool
    decreases s, 1int,
    via wf_docs_decreases
{
    if s.len() == 0 {
        true
    } else {
        wf_docs(s.drop_last()) && wf_doc(s.last())
    }
}

/// Whether every document shape in a pair sequence is well formed.
pub open spec fn wf_pairs(s: Seq<(Seq<char>, DocView)>) -> bool
    decreases s, 1int,
    via wf_pairs_decreases
{
    if s.len() == 0 {
        true
    } else {
        wf_pairs(s.drop_last()) && wf_doc(s.last().1)
    }
}

#[via_fn]
proof fn wf_doc_decreases(d: DocView) {
    match d {
        DocView::List(items) => {
            assert(decreases_to!(d => items));
        },
        DocView::Object(pairs) => {
            assert(decreases_to!(d => pairs));
        },
        _ => {},
    }
}

#[via_fn]
proof fn wf_docs_decreases(s: Seq<DocView>) {
    if s.len() != 0 {
        assert(decreases_to!(s => s.subrange(0, s.len() - 1)));
        assert(decreases_to!(s => s[s.len() - 1]));
    }
}

#[via_fn]
proof fn wf_pairs_decreases(s: Seq<(Seq<char>, DocView)>) {
    if s.len() != 0 {
        assert(decreases_to!(s => s.subrange(0, s.len() - 1)));
        assert(decreases_to!(s => s[s.len() - 1]));
        assert(decreases_to!(s[s.len() - 1] => s[s.len() - 1].1));
    }
}

pub proof fn lemma_wf_docs_index(s: Seq<DocView>, k: int)
    requires
        wf_docs(s),
        0 <= k < s.len(),
    ensures
        wf_doc(s[k]),
    decreases s.len(),
{
    if k < s.len() - 1 {
        lemma_wf_docs_index(s.drop_last(), k);
    }
}

pub proof fn lemma_wf_docs_drop_first(s: Seq<DocView>)
    requires
        wf_docs(s),
        s.len() > 0,
    ensures
        wf_docs(s.drop_first()),
    decreases s.len(),
{
    if s.len() > 1 {
        lemma_wf_docs_drop_first(s.drop_last());
        assert(s.drop_last().drop_first() =~= s.drop_first().drop_last());
        assert(s.drop_first().last() == s.last());
    } else {
        assert(s.drop_first() =~= Seq::<DocView>::empty());
    }
}

pub proof fn lemma_wf_pairs_index(s: Seq<(Seq<char>, DocView)>, k: int)
    requires
        wf_pairs(s),
        0 <= k < s.len(),
    ensures
        wf_doc(s[k].1),
    decreases s.len(),
{
    if k < s.len() - 1 {
        lemma_wf_pairs_index(s.drop_last(), k);
    }
}

pub proof fn lemma_wf_pairs_drop_first(s: Seq<(Seq<char>, DocView)>)
    requires
        wf_pairs(s),
        s.len() > 0,
    ensures
        wf_pairs(s.drop_first()),
    decreases s.len(),
{
    if s.len() > 1 {
        lemma_wf_pairs_drop_first(s.drop_last());
        assert(s.drop_last().drop_first() =~= s.drop_first().drop_last());
        assert(s.drop_first().last() == s.last());
    } else {
        assert(s.drop_first() =~= Seq::<(Seq<char>, DocView)>::empty());
    }
}

pub proof fn lemma_wf_docs_cons(v: DocView, rest: Seq<DocView>)
    requires
        wf_doc(v),
        wf_docs(rest),
    ensures
        wf_docs(seq![v] + rest),
    decreases rest.len(),
{
    if rest.len() == 0 {
        assert(seq![v] + rest =~= seq![v]);
        assert(seq![v].drop_last() =~= Seq::<DocView>::empty());
        assert(wf_docs(Seq::<DocView>::empty()));
        assert(seq![v].last() == v);
        assert(wf_docs(seq![v]));
    } else {
        assert((seq![v] + rest).drop_last() =~= seq![v] + rest.drop_last());
        lemma_wf_docs_cons(v, rest.drop_last());
        assert((seq![v] + rest).last() == rest.last());
    }
}

pub proof fn lemma_wf_pairs_cons(p: (Seq<char>, DocView), rest: Seq<(Seq<char>, DocView)>)
    requires
        wf_doc(p.1),
        wf_pairs(rest),
    ensures
        wf_pairs(seq![p] + rest),
    decreases rest.len(),
{
    if rest.len() == 0 {
        assert(seq![p] + rest =~= seq![p]);
        assert(seq![p].drop_last() =~= Seq::<(Seq<char>, DocView)>::empty());
        assert(wf_pairs(Seq::<(Seq<char>, DocView)>::empty()));
        assert(seq![p].last() == p);
        assert(wf_pairs(seq![p]));
    } else {
        assert((seq![p] + rest).drop_last() =~= seq![p] + rest.drop_last());
        lemma_wf_pairs_cons(p, rest.drop_last());
        assert((seq![p] + rest).last() == rest.last());
    }
}

/// The value under a key of well-formed pairs is well formed.
pub proof fn lemma_lookup_wf(pairs: Seq<(Seq<char>, DocView)>, key: Seq<char>)
    requires
        wf_pairs(pairs),
    ensures
        spec_lookup(pairs, key) matches Some(v) ==> wf_doc(v),
    decreases pairs.len(),
{
    if pairs.len() != 0 {
        if pairs[0].0 == key {
            lemma_wf_pairs_index(pairs, 0);
        } else {
            lemma_wf_pairs_drop_first(pairs);
            lemma_lookup_wf(pairs.drop_first(), key);
        }
    }
}

// ---------------------------------------------------------------------------
// Properties of the parsing specification
// ---------------------------------------------------------------------------

pub proof fn lemma_ws_end(s: Seq<char>, i: int)
    requires
        0 <= i <= s.len(),
    ensures
        i <= ws_end(s, i) <= s.len(),
        ws_end(s, i) < s.len() ==> !is_ws(s[ws_end(s, i)]),
        forall|k: int| i <= k < ws_end(s, i) ==> is_ws(#[trigger] s[k]),
    decreases s.len() - i,
{
    if i < s.len() && is_ws(s[i]) {
        lemma_ws_end(s, i + 1);
    }
}

pub proof fn lemma_plain_end(s: Seq<char>, i: int)
    requires
        0 <= i <= s.len(),
    ensures
        i <= plain_end(s, i) <= s.len(),
        plain_end(s, i) < s.len() ==> !is_plain_char(s[plain_end(s, i)]),
        forall|k: int| i <= k < plain_end(s, i) ==> is_plain_char(#[trigger] s[k]),
    decreases s.len() - i,
{
    if i < s.len() && is_plain_char(s[i]) {
        lemma_plain_end(s, i + 1);
    }
}

pub proof fn lemma_digits_end(s: Seq<char>, i: int)
    requires
        0 <= i <= s.len(),
    ensures
        i <= digits_end(s, i) <= s.len(),
        digits_end(s, i) < s.len() ==> !is_digit(s[digits_end(s, i)]),
        forall|k: int| i <= k < digits_end(s, i) ==> is_digit(#[trigger] s[k]),
    decreases s.len() - i,
{
    if i < s.len() && is_digit(s[i]) {
        lemma_digits_end(s, i + 1);
    }
}

pub proof fn lemma_digits_end_exact(s: Seq<char>, i: int, e: int)
    requires
        0 <= i <= e <= s.len(),
        forall|k: int| i <= k < e ==> is_digit(#[trigger] s[k]),
        e == s.len() || !is_digit(s[e]),
    ensures
        digits_end(s, i) == e,
    decreases e - i,
{
    if i < e {
        lemma_digits_end_exact(s, i + 1, e);
    }
}

/// The characters a canonical number token may hold are plain.
proof fn lemma_number_char_plain(c: char)
    requires
        c == '-' || c == '.' || c == '+' || c == 'e' || c == 'E' || is_digit(c),
    ensures
        is_plain_char(c),
        !is_ws(c),
{
    assert(' ' as u32 == 32 && '\t' as u32 == 9 && '\n' as u32 == 10 && '\r' as u32 == 13);
    assert(',' as u32 == 44 && ':' as u32 == 58 && '{' as u32 == 123 && '}' as u32 == 125);
    assert('[' as u32 == 91 && ']' as u32 == 93 && '"' as u32 == 34);
    assert('-' as u32 == 45 && '.' as u32 == 46 && '+' as u32 == 43);
    assert('e' as u32 == 101 && 'E' as u32 == 69);
}

/// A canonical number token is nonempty, made of plain characters, and
/// begins with a minus or a digit.
proof fn lemma_number_chars(t: Seq<char>)
    requires
        spec_number_shape(t),
    ensures
        t.len() > 0,
        forall|k: int| 0 <= k < t.len() ==> is_plain_char(#[trigger] t[k]) && !is_ws(t[k]),
        t[0] == '-' || is_digit(t[0]),
        !is_value_end(t[0]),
{
    let i0: int = if t.len() > 0 && t[0] == '-' {
        1
    } else {
        0
    };
    let a = int_part_end(t, i0);
    let b = frac_part_end(t, a);
    let c = exp_part_end(t, b);
    assert(0 <= i0 < t.len() && is_digit(t[i0]));
    assert(i0 <= a <= t.len()) by {
        if t[i0] != '0' {
            lemma_digits_end(t, i0);
        }
    }
    if t[i0] != '0' {
        lemma_digits_end(t, i0);
    }
    assert(a <= b <= t.len()) by {
        if b != a {
            lemma_digits_end(t, a + 1);
        }
    }
    if b != a {
        lemma_digits_end(t, a + 1);
    }
    if c != b {
        lemma_digits_end(t, b + 1);
        if b + 1 < t.len() && (t[b + 1] == '+' || t[b + 1] == '-') {
            lemma_digits_end(t, b + 2);
        }
    }
    lemma_number_char_plain(t[0]);
    assert forall|k: int| 0 <= k < t.len() implies is_plain_char(#[trigger] t[k]) && !is_ws(
        t[k],
    ) by {
        if k < i0 {
            lemma_number_char_plain(t[k]);
        } else if k < a {
            if t[i0] == '0' {
                assert(k == i0);
            }
            lemma_number_char_plain(t[k]);
        } else if k < b {
            if k == a {
                assert(t[a] == '.');
            } else {
                assert(is_digit(t[k]));
            }
            lemma_number_char_plain(t[k]);
        } else {
            assert(k >= b);
            assert(c > b);
            let j: int = if b + 1 < t.len() && (t[b + 1] == '+' || t[b + 1] == '-') {
                b + 2
            } else {
                b + 1
            };
            if k == b {
                assert(t[b] == 'e' || t[b] == 'E');
            } else if k < j {
                assert(t[k] == '+' || t[k] == '-');
            } else {
                assert(is_digit(t[k]));
            }
            lemma_number_char_plain(t[k]);
        }
    }
    assert(',' as u32 == 44 && ']' as u32 == 93 && '}' as u32 == 125);
    assert('-' as u32 == 45);
}

/// A canonical integer token is digits, after an optional minus.
proof fn lemma_int_shape_digits(t: Seq<char>)
    requires
        spec_int_shape(t),
    ensures
        t.len() > 0,
        t[0] == '-' ==> t.len() >= 2 && all_digits(t.drop_first()),
        t[0] != '-' ==> all_digits(t),
    decreases 0int,
{
    let i0: int = if t.len() > 0 && t[0] == '-' {
        1
    } else {
        0
    };
    assert(0 <= i0 < t.len() && is_digit(t[i0]));
    if t[i0] != '0' {
        lemma_digits_end(t, i0);
    }
    if t[0] == '-' {
        assert(all_digits(t.drop_first())) by {
            assert(forall|k: int|
                0 <= k < t.len() - 1 ==> #[trigger] t.drop_first()[k] == t[k + 1]);
        }
    }
}

pub proof fn lemma_string_body_pos(s: Seq<char>, i: int)
    requires
        0 <= i,
    ensures
        spec_string_body(s, i) matches Some(r) ==> i < r.1 <= s.len(),
    decreases s.len() - i,
{
    if 0 <= i && i < s.len() {
        if s[i] == '"' {
        } else if s[i] == '\\' {
            if i + 1 < s.len() {
                if s[i + 1] == 'u' {
                    if i + 6 <= s.len() {
                        lemma_string_body_pos(s, i + 6);
                    }
                } else {
                    lemma_string_body_pos(s, i + 2);
                }
            }
        } else {
            lemma_string_body_pos(s, i + 1);
        }
    }
}

pub proof fn lemma_value_pos(s: Seq<char>, i: int, fuel: nat)
    requires
        0 <= i,
    ensures
        spec_value(s, i, fuel) matches Some(r) ==> i < r.1 <= s.len(),
    decreases fuel,
{
    if fuel != 0 {
        let j = ws_end(s, i);
        if i <= s.len() {
            lemma_ws_end(s, i);
        }
        if 0 <= j && j < s.len() {
            if s[j] == '{' {
                lemma_ws_end(s, j + 1);
                lemma_members_pos(s, j + 1, (fuel - 1) as nat);
            } else if s[j] == '[' {
                lemma_ws_end(s, j + 1);
                lemma_items_pos(s, j + 1, (fuel - 1) as nat);
            } else if s[j] == '"' {
                lemma_string_body_pos(s, j + 1);
            } else if is_plain_char(s[j]) {
                lemma_plain_end(s, j);
            }
        }
    }
}

pub proof fn lemma_items_pos(s: Seq<char>, i: int, fuel: nat)
    requires
        0 <= i,
    ensures
        spec_items(s, i, fuel) matches Some(r) ==> i < r.1 <= s.len(),
    decreases fuel,
{
    if fuel != 0 {
        lemma_value_pos(s, i, (fuel - 1) as nat);
        match spec_value(s, i, (fuel - 1) as nat) {
            Some((v, j)) => {
                lemma_ws_end(s, j);
                let k = ws_end(s, j);
                if k < s.len() && s[k] == ',' {
                    lemma_items_pos(s, k + 1, (fuel - 1) as nat);
                }
            },
            None => {},
        }
    }
}

pub proof fn lemma_members_pos(s: Seq<char>, i: int, fuel: nat)
    requires
        0 <= i,
    ensures
        spec_members(s, i, fuel) matches Some(r) ==> i < r.1 <= s.len(),
    decreases fuel,
{
    if fuel != 0 {
        let j = ws_end(s, i);
        if i <= s.len() {
            lemma_ws_end(s, i);
        }
        if 0 <= j && j < s.len() {
            if s[j] == '"' {
                lemma_string_body_pos(s, j + 1);
            } else if is_plain_char(s[j]) {
                lemma_plain_end(s, j);
            }
            let key_end: Option<(Seq<char>, int)> = if s[j] == '"' {
                spec_string_body(s, j + 1)
            } else if is_plain_char(s[j]) && is_plain_safe(s.subrange(j, plain_end(s, j))) {
                Some((s.subrange(j, plain_end(s, j)), plain_end(s, j)))
            } else {
                None
            };
            match key_end {
                Some((key, j2)) => {
                    lemma_ws_end(s, j2);
                    let k = ws_end(s, j2);
                    if k < s.len() && s[k] == ':' {
                        lemma_value_pos(s, k + 1, (fuel - 1) as nat);
                        match spec_value(s, k + 1, (fuel - 1) as nat) {
                            Some((v, j3)) => {
                                lemma_ws_end(s, j3);
                                let k2 = ws_end(s, j3);
                                if k2 < s.len() && s[k2] == ',' {
                                    lemma_members_pos(s, k2 + 1, (fuel - 1) as nat);
                                }
                            },
                            None => {},
                        }
                    }
                },
                None => {},
            }
        }
    }
}

pub proof fn lemma_value_fuel(s: Seq<char>, i: int, f1: nat, f2: nat)
    requires
        0 <= i,
        f1 >= value_fuel(s, i),
        f2 >= value_fuel(s, i),
    ensures
        spec_value(s, i, f1) == spec_value(s, i, f2),
    decreases f1 + f2,
{
    let j = ws_end(s, i);
    if i <= s.len() {
        lemma_ws_end(s, i);
    }
    if 0 <= j && j < s.len() {
        if s[j] == '{' {
            lemma_members_fuel(s, j + 1, (f1 - 1) as nat, (f2 - 1) as nat);
        } else if s[j] == '[' {
            lemma_items_fuel(s, j + 1, (f1 - 1) as nat, (f2 - 1) as nat);
        }
    }
}

pub proof fn lemma_items_fuel(s: Seq<char>, i: int, f1: nat, f2: nat)
    requires
        0 <= i,
        f1 >= seq_fuel(s, i),
        f2 >= seq_fuel(s, i),
    ensures
        spec_items(s, i, f1) == spec_items(s, i, f2),
    decreases f1 + f2,
{
    lemma_value_fuel(s, i, (f1 - 1) as nat, (f2 - 1) as nat);
    lemma_value_pos(s, i, (f1 - 1) as nat);
    match spec_value(s, i, (f1 - 1) as nat) {
        Some((v, j)) => {
            lemma_ws_end(s, j);
            let k = ws_end(s, j);
            if k < s.len() && s[k] == ',' {
                lemma_items_fuel(s, k + 1, (f1 - 1) as nat, (f2 - 1) as nat);
            }
        },
        None => {},
    }
}

pub proof fn lemma_members_fuel(s: Seq<char>, i: int, f1: nat, f2: nat)
    requires
        0 <= i,
        f1 >= seq_fuel(s, i),
        f2 >= seq_fuel(s, i),
    ensures
        spec_members(s, i, f1) == spec_members(s, i, f2),
    decreases f1 + f2,
{
    let j = ws_end(s, i);
    if i <= s.len() {
        lemma_ws_end(s, i);
    }
    if 0 <= j && j < s.len() {
        if s[j] == '"' {
            lemma_string_body_pos(s, j + 1);
        } else if is_plain_char(s[j]) {
            lemma_plain_end(s, j);
        }
        let key_end: Option<(Seq<char>, int)> = if s[j] == '"' {
            spec_string_body(s, j + 1)
        } else if is_plain_char(s[j]) && is_plain_safe(s.subrange(j, plain_end(s, j))) {
            Some((s.subrange(j, plain_end(s, j)), plain_end(s, j)))
        } else {
            None
        };
        match key_end {
            Some((key, j2)) => {
                lemma_ws_end(s, j2);
                let k = ws_end(s, j2);
                if k < s.len() && s[k] == ':' {
                    lemma_value_fuel(s, k + 1, (f1 - 1) as nat, (f2 - 1) as nat);
                    lemma_value_pos(s, k + 1, (f1 - 1) as nat);
                    match spec_value(s, k + 1, (f1 - 1) as nat) {
                        Some((v, j3)) => {
                            lemma_ws_end(s, j3);
                            let k2 = ws_end(s, j3);
                            if k2 < s.len() && s[k2] == ',' {
                                lemma_members_fuel(s, k2 + 1, (f1 - 1) as nat, (f2 - 1) as nat);
                            }
                        },
                        None => {},
                    }
                }
            },
            None => {},
        }
    }
}


/// Every value a token classifies to is well formed.
pub proof fn lemma_token_wf(t: Seq<char>)
    ensures
        spec_token(t) matches Some(v) ==> wf_doc(v),
{
    if spec_number_shape(t) && spec_int_shape(t) {
        lemma_int_shape_digits(t);
        if t[0] == '-' {
            lemma_digits_prefix(t.drop_first(), 0);
            assert(t.drop_first().take(0) =~= Seq::<char>::empty());
        } else {
            lemma_digits_prefix(t, 0);
            assert(t.take(0) =~= Seq::<char>::empty());
        }
    }
}

/// Every value the parser yields is well formed.
pub proof fn lemma_value_wf(s: Seq<char>, i: int, fuel: nat)
    requires
        0 <= i,
    ensures
        spec_value(s, i, fuel) matches Some(r) ==> wf_doc(r.0),
    decreases fuel,
{
    if fuel != 0 {
        let j = ws_end(s, i);
        if i <= s.len() {
            lemma_ws_end(s, i);
        }
        if 0 <= j && j < s.len() {
            if s[j] == '{' {
                assert(wf_pairs(Seq::<(Seq<char>, DocView)>::empty()));
                lemma_members_wf(s, j + 1, (fuel - 1) as nat);
            } else if s[j] == '[' {
                assert(wf_docs(Seq::<DocView>::empty()));
                lemma_items_wf(s, j + 1, (fuel - 1) as nat);
            } else if s[j] == '"' {
            } else if is_plain_char(s[j]) {
                lemma_token_wf(s.subrange(j, plain_end(s, j)));
            }
        }
    }
}

/// Every item sequence the parser yields is well formed.
pub proof fn lemma_items_wf(s: Seq<char>, i: int, fuel: nat)
    requires
        0 <= i,
    ensures
        spec_items(s, i, fuel) matches Some(r) ==> wf_docs(r.0),
    decreases fuel,
{
    if fuel != 0 {
        lemma_value_wf(s, i, (fuel - 1) as nat);
        lemma_value_pos(s, i, (fuel - 1) as nat);
        match spec_value(s, i, (fuel - 1) as nat) {
            Some((v, j)) => {
                lemma_ws_end(s, j);
                let k = ws_end(s, j);
                if k < s.len() && s[k] == ',' {
                    lemma_items_wf(s, k + 1, (fuel - 1) as nat);
                    match spec_items(s, k + 1, (fuel - 1) as nat) {
                        Some((rest, e)) => {
                            lemma_wf_docs_cons(v, rest);
                        },
                        None => {},
                    }
                } else if k < s.len() && s[k] == ']' {
                    lemma_wf_docs_cons(v, Seq::<DocView>::empty());
                    assert(seq![v] + Seq::<DocView>::empty() =~= seq![v]);
                }
            },
            None => {},
        }
    }
}

/// Every member sequence the parser yields is well formed.
pub proof fn lemma_members_wf(s: Seq<char>, i: int, fuel: nat)
    requires
        0 <= i,
    ensures
        spec_members(s, i, fuel) matches Some(r) ==> wf_pairs(r.0),
    decreases fuel,
{
    if fuel != 0 {
        let j = ws_end(s, i);
        if i <= s.len() {
            lemma_ws_end(s, i);
        }
        if 0 <= j && j < s.len() {
            if s[j] == '"' {
                lemma_string_body_pos(s, j + 1);
            } else if is_plain_char(s[j]) {
                lemma_plain_end(s, j);
            }
            let key_end: Option<(Seq<char>, int)> = if s[j] == '"' {
                spec_string_body(s, j + 1)
            } else if is_plain_char(s[j]) && is_plain_safe(s.subrange(j, plain_end(s, j))) {
                Some((s.subrange(j, plain_end(s, j)), plain_end(s, j)))
            } else {
                None
            };
            match key_end {
                Some((key, j2)) => {
                    lemma_ws_end(s, j2);
                    let k = ws_end(s, j2);
                    if k < s.len() && s[k] == ':' {
                        lemma_value_wf(s, k + 1, (fuel - 1) as nat);
                        lemma_value_pos(s, k + 1, (fuel - 1) as nat);
                        match spec_value(s, k + 1, (fuel - 1) as nat) {
                            Some((v, j3)) => {
                                lemma_ws_end(s, j3);
                                let k2 = ws_end(s, j3);
                                if k2 < s.len() && s[k2] == ',' {
                                    lemma_members_wf(s, k2 + 1, (fuel - 1) as nat);
                                    match spec_members(s, k2 + 1, (fuel - 1) as nat) {
                                        Some((rest, e)) => {
                                            lemma_wf_pairs_cons((key, v), rest);
                                        },
                                        None => {},
                                    }
                                } else if k2 < s.len() && s[k2] == '}' {
                                    lemma_wf_pairs_cons(
                                        (key, v),
                                        Seq::<(Seq<char>, DocView)>::empty(),
                                    );
                                    assert(seq![(key, v)] + Seq::<(Seq<char>, DocView)>::empty()
                                        =~= seq![(key, v)]);
                                }
                            },
                            None => {},
                        }
                    }
                },
                None => {},
            }
        }
    }
}

/// Every document a text denotes is well formed: parsed documents can be
/// serialized and parsed back unchanged.
pub proof fn lemma_load_wf(s: Seq<char>)
    ensures
        spec_load_document(s) matches Some(doc) ==> wf_doc(doc),
{
    lemma_value_wf(s, 0, value_fuel(s, 0));
    match yaml_as_json(s) {
        Some(j) => {
            lemma_value_wf(j, 0, value_fuel(j, 0));
        },
        None => {},
    }
}

// ---------------------------------------------------------------------------
// The reader
// ---------------------------------------------------------------------------

pub proof fn lemma_digits_prefix(t: Seq<char>, k: int)
    requires
        all_digits(t),
        0 <= k <= t.len(),
    ensures
        digits_val(t) >= digits_val(t.take(k)),
        digits_val(t.take(k)) >= 0,
    decreases t.len(),
{
    if t.len() == 0 {
        assert(t.take(k) =~= t);
    } else {
        assert(all_digits(t.drop_last())) by {
            assert(forall|m: int| 0 <= m < t.len() - 1 ==> t.drop_last()[m] == t[m]);
        }
        if k == t.len() {
            assert(t.take(k) =~= t);
            lemma_digits_prefix(t.drop_last(), t.len() - 1);
            assert(t.drop_last().take(t.len() - 1) =~= t.drop_last());
            assert(is_digit(t.last()));
        } else {
            lemma_digits_prefix(t.drop_last(), k);
            assert(t.drop_last().take(k) =~= t.take(k));
            assert(is_digit(t.last()));
        }
    }
}

fn skip_ws(text: &str, i: usize) -> (r: usize)
    requires
        i as int <= text@.len(),
    ensures
        r as int == ws_end(text@, i as int),
        i <= r,
        r as int <= text@.len(),
{
    let ghost s = text@;
    let n = text.unicode_len();
    let mut cur = i;
    loop
        invariant
            i <= cur <= n,
            n == s.len(),
            s == text@,
            ws_end(s, i as int) == ws_end(s, cur as int),
        ensures
            i <= cur <= n,
            ws_end(s, i as int) == cur as int,
        decreases n - cur,
    {
        if cur >= n {
            break;
        }
        let c = text.get_char(cur);
        if c != ' ' && c != '\t' && c != '\n' && c != '\r' {
            break;
        }
        cur += 1;
    }
    cur
}

fn scan_plain(text: &str, i: usize) -> (r: usize)
    requires
        i as int <= text@.len(),
    ensures
        r as int == plain_end(text@, i as int),
        i <= r,
        r as int <= text@.len(),
{
    let ghost s = text@;
    let n = text.unicode_len();
    let mut cur = i;
    loop
        invariant
            i <= cur <= n,
            n == s.len(),
            s == text@,
            plain_end(s, i as int) == plain_end(s, cur as int),
        ensures
            i <= cur <= n,
            plain_end(s, i as int) == cur as int,
        decreases n - cur,
    {
        if cur >= n {
            break;
        }
        let c = text.get_char(cur);
        if c == ' ' || c == '\t' || c == '\n' || c == '\r' || c == ',' || c == ':' || c == '{'
            || c == '}' || c == '[' || c == ']' || c == '"' {
            break;
        }
        cur += 1;
    }
    cur
}

fn scan_digits(t: &str, i: usize) -> (r: usize)
    requires
        i as int <= t@.len(),
    ensures
        r as int == digits_end(t@, i as int),
        i <= r,
        r as int <= t@.len(),
{
    let ghost s = t@;
    let n = t.unicode_len();
    let mut cur = i;
    loop
        invariant
            i <= cur <= n,
            n == s.len(),
            s == t@,
            digits_end(s, i as int) == digits_end(s, cur as int),
        ensures
            i <= cur <= n,
            digits_end(s, i as int) == cur as int,
        decreases n - cur,
    {
        if cur >= n {
            break;
        }
        let u = t.get_char(cur) as u32;
        if !(48 <= u && u <= 57) {
            break;
        }
        cur += 1;
    }
    cur
}

/// Whether the token has the canonical number shape, and whether it is a
/// canonical integer.
fn check_number_shape(t: &str) -> (r: (bool, bool))
    ensures
        r.0 == spec_number_shape(t@),
        r.1 == spec_int_shape(t@),
{
    let ghost s = t@;
    let n = t.unicode_len();
    if n == 0 {
        return (false, false);
    }
    let i0: usize = if t.get_char(0) == '-' {
        1
    } else {
        0
    };
    if i0 >= n {
        return (false, false);
    }
    let c0 = t.get_char(i0);
    let u0 = c0 as u32;
    if !(48 <= u0 && u0 <= 57) {
        return (false, false);
    }
    let a: usize = if c0 == '0' {
        i0 + 1
    } else {
        scan_digits(t, i0)
    };
    proof {
        assert(a as int == int_part_end(s, i0 as int));
    }
    let int_only = a == n;
    let b: usize = if a < n && t.get_char(a) == '.' {
        proof {
            assert(!int_only);
        }
        if a + 1 < n {
            let u1 = t.get_char(a + 1) as u32;
            if 48 <= u1 && u1 <= 57 {
                scan_digits(t, a + 1)
            } else {
                return (false, false);
            }
        } else {
            return (false, false);
        }
    } else {
        a
    };
    proof {
        assert(b as int == frac_part_end(s, a as int));
    }
    let cpos: usize = if b < n && (t.get_char(b) == 'e' || t.get_char(b) == 'E') {
        proof {
            assert(!int_only);
        }
        let j: usize = if b + 1 < n && (t.get_char(b + 1) == '+' || t.get_char(b + 1) == '-') {
            b + 2
        } else {
            b + 1
        };
        if j < n {
            let u1 = t.get_char(j) as u32;
            if 48 <= u1 && u1 <= 57 {
                scan_digits(t, j)
            } else {
                return (false, false);
            }
        } else {
            return (false, false);
        }
    } else {
        b
    };
    proof {
        assert(cpos as int == exp_part_end(s, b as int));
    }
    (cpos == n, int_only)
}

fn hex_digit_val(c: char) -> (r: Option<u32>)
    ensures
        match r {
            Some(v) => hex_val(c) == Some(v as int) && v < 16,
            None => hex_val(c) is None,
        },
{
    let u = c as u32;
    if 48 <= u && u <= 57 {
        Some(u - 48)
    } else if 97 <= u && u <= 102 {
        Some(u - 87)
    } else if 65 <= u && u <= 70 {
        Some(u - 55)
    } else {
        None
    }
}

/// Read the body of a double-quoted scalar, from just after the opening
/// quote through the closing quote.
fn parse_string_body(text: &str, i: usize) -> (r: Result<(String, usize), usize>)
    requires
        i as int <= text@.len(),
    ensures
        match r {
            Ok(p) => spec_string_body(text@, i as int) == Some((p.0@, p.1 as int)) && p.1 as int
                <= text@.len(),
            Err(_) => spec_string_body(text@, i as int) is None,
        },
{
    let ghost s = text@;
    let n = text.unicode_len();
    let mut acc = String::new();
    let mut cur = i;
    proof {
        assert(acc@ =~= Seq::<char>::empty());
    }
    loop
        invariant
            i <= cur <= n,
            n == s.len(),
            s == text@,
            spec_string_body(s, i as int) == (match spec_string_body(s, cur as int) {
                Some((t, e)) => Some((acc@ + t, e)),
                None => None::<(Seq<char>, int)>,
            }),
        decreases n - cur,
    {
        if cur >= n {
            return Err(cur);
        }
        let c = text.get_char(cur);
        if c == '"' {
            proof {
                assert(acc@ + Seq::<char>::empty() =~= acc@);
            }
            return Ok((acc, cur + 1));
        }
        let ghost acc_before = acc@;
        if c == '\\' {
            if cur + 1 >= n {
                return Err(cur);
            }
            let e = text.get_char(cur + 1);
            if e == 'u' {
                if n - cur < 6 {
                    return Err(cur);
                }
                let h0 = hex_digit_val(text.get_char(cur + 2));
                let h1 = hex_digit_val(text.get_char(cur + 3));
                let h2 = hex_digit_val(text.get_char(cur + 4));
                let h3 = hex_digit_val(text.get_char(cur + 5));
                if h0.is_none() || h1.is_none() || h2.is_none() || h3.is_none() {
                    return Err(cur);
                }
                let code: u32 = h0.unwrap() * 4096 + h1.unwrap() * 256 + h2.unwrap() * 16
                    + h3.unwrap();
                if code < 0xD800 || code >= 0xE000 {
                    let ch = match crate::text::char_from_u32(code) {
                        Some(ch) => ch,
                        None => {
                            proof {
                                assert(false);
                            }
                            return Err(cur);
                        },
                    };
                    proof {
                        vstd::utf8::char_u32_cast(ch, code);
                    }
                    push_char(&mut acc, ch);
                    proof {
                        match spec_string_body(s, cur + 6) {
                            Some((t2, e2)) => {
                                assert(spec_string_body(s, cur as int) == Some(
                                    (seq![ch] + t2, e2),
                                ));
                                assert(acc_before + (seq![ch] + t2) =~= acc@ + t2);
                            },
                            None => {},
                        }
                    }
                    cur += 6;
                } else {
                    return Err(cur);
                }
            } else {
                let decoded: Option<char> = if e == '"' {
                    Some('"')
                } else if e == '\\' {
                    Some('\\')
                } else if e == '/' {
                    Some('/')
                } else if e == 'n' {
                    Some('\n')
                } else if e == 't' {
                    Some('\t')
                } else if e == 'r' {
                    Some('\r')
                } else if e == 'b' {
                    Some('\u{8}')
                } else if e == 'f' {
                    Some('\u{c}')
                } else {
                    None
                };
                match decoded {
                    Some(ch) => {
                        push_char(&mut acc, ch);
                        proof {
                            match spec_string_body(s, cur + 2) {
                                Some((t2, e2)) => {
                                    assert(spec_string_body(s, cur as int) == Some(
                                        (seq![ch] + t2, e2),
                                    ));
                                    assert(acc_before + (seq![ch] + t2) =~= acc@ + t2);
                                },
                                None => {},
                            }
                        }
                        cur += 2;
                    },
                    None => {
                        return Err(cur);
                    },
                }
            }
        } else {
            push_char(&mut acc, c);
            proof {
                match spec_string_body(s, cur + 1) {
                    Some((t2, e2)) => {
                        assert(spec_string_body(s, cur as int) == Some((seq![c] + t2, e2)));
                        assert(acc_before + (seq![c] + t2) =~= acc@ + t2);
                    },
                    None => {},
                }
            }
            cur += 1;
        }
    }
}

/// Read the decimal digits of `t` from `start` to its end, refusing values
/// above `limit`.
fn parse_digits(t: &str, start: usize, limit: u64) -> (r: Option<u64>)
    requires
        start as int <= t@.len(),
        limit >= 9,
    ensures
        match r {
            Some(m) => all_digits(t@.skip(start as int)) && digits_val(t@.skip(start as int))
                == m as int && m <= limit,
            None => !(all_digits(t@.skip(start as int)) && digits_val(t@.skip(start as int))
                <= limit as int),
        },
{
    let ghost s = t@.skip(start as int);
    let n = t.unicode_len();
    let mut m: u64 = 0;
    let mut idx = start;
    proof {
        assert(s.take(0) =~= Seq::<char>::empty());
    }
    while idx < n
        invariant
            start <= idx <= n,
            n == t@.len(),
            s == t@.skip(start as int),
            all_digits(s.take(idx - start)),
            m as int == digits_val(s.take(idx - start)),
            m <= limit,
            limit >= 9,
        decreases n - idx,
    {
        let ghost k = idx - start;
        let c = t.get_char(idx);
        let u = c as u32;
        proof {
            assert(s[k] == t@[idx as int]);
        }
        if !(48 <= u && u <= 57) {
            proof {
                assert(!is_digit(s[k]));
                assert(!all_digits(s));
            }
            return None;
        }
        let d: u64 = (u - 48) as u64;
        proof {
            assert(s.take(k + 1).drop_last() =~= s.take(k));
            assert(s.take(k + 1).last() == s[k]);
            assert(digits_val(s.take(k + 1)) == m as int * 10 + d as int);
        }
        proof {
            assert(d <= 9);
        }
        if m > (limit - d) / 10 {
            proof {
                vstd::arithmetic::div_mod::lemma_fundamental_div_mod((limit - d) as int, 10);
                assert(m as int * 10 + d as int > limit as int);
                if all_digits(s) {
                    lemma_digits_prefix(s, k + 1);
                }
            }
            return None;
        }
        proof {
            vstd::arithmetic::div_mod::lemma_fundamental_div_mod((limit - d) as int, 10);
            assert(m as int * 10 + d as int <= limit as int);
            assert(all_digits(s.take(k + 1))) by {
                assert(forall|q: int|
                    0 <= q < k + 1 ==> s.take(k + 1)[q] == #[trigger] s.take(k)[q] || q == k);
                assert(is_digit(s[k]));
            }
        }
        m = m * 10 + d;
        idx += 1;
    }
    proof {
        assert(s.take(n - start) =~= s);
    }
    Some(m)
}

/// Classify one plain token: the text of `t` between `j` and `e`.
fn classify_token(t: &str, j: usize, e: usize) -> (r: Result<Document, usize>)
    requires
        j < e <= t@.len(),
    ensures
        match r {
            Ok(d) => spec_token(t@.subrange(j as int, e as int)) == Some(d@),
            Err(_) => spec_token(t@.subrange(j as int, e as int)) is None,
        },
{
    let ghost tok = t@.subrange(j as int, e as int);
    let token = t.substring_char(j, e);
    if crate::text::str_eq(token, "null") {
        return Ok(Document::Null);
    }
    if crate::text::str_eq(token, "true") {
        return Ok(Document::Bool(true));
    }
    if crate::text::str_eq(token, "false") {
        return Ok(Document::Bool(false));
    }
    let (is_number, is_int) = check_number_shape(token);
    if is_number {
        if is_int {
            proof {
                lemma_int_shape_digits(tok);
            }
            if token.get_char(0) == '-' {
                proof {
                    assert(tok.skip(1) =~= tok.drop_first());
                }
                match parse_digits(token, 1, 0x8000_0000_0000_0000) {
                    Some(m) => {
                        if m == 0x8000_0000_0000_0000 {
                            Ok(Document::Int(i64::MIN))
                        } else {
                            Ok(Document::Int(-(m as i64)))
                        }
                    },
                    None => Err(j),
                }
            } else {
                proof {
                    assert(tok.skip(0) =~= tok);
                }
                match parse_digits(token, 0, u64::MAX) {
                    Some(m) => {
                        if m <= 0x7fff_ffff_ffff_ffff {
                            Ok(Document::Int(m as i64))
                        } else {
                            Ok(Document::Number(String::from_str(token)))
                        }
                    },
                    None => Err(j),
                }
            }
        } else {
            Ok(Document::Number(String::from_str(token)))
        }
    } else if plain_safe(token) {
        proof {
            assert(!(tok.len() > 0 && is_digit(tok[0])));
        }
        Ok(Document::Text(String::from_str(token)))
    } else {
        Err(j)
    }
}

/// Read one value starting at or after `i`.
fn parse_value(text: &str, i: usize) -> (r: Result<(Document, usize), usize>)
    requires
        i as int <= text@.len(),
    ensures
        match r {
            Ok(p) => spec_value(text@, i as int, value_fuel(text@, i as int)) == Some(
                (p.0@, p.1 as int),
            ) && i < p.1 && p.1 as int <= text@.len(),
            Err(_) => spec_value(text@, i as int, value_fuel(text@, i as int)) is None,
        },
    decreases text@.len() - i, 0int,
{
    let ghost s = text@;
    let ghost f = value_fuel(s, i as int);
    let n = text.unicode_len();
    let j = skip_ws(text, i);
    if j >= n {
        return Err(j);
    }
    let c = text.get_char(j);
    if c == '{' {
        let j2 = skip_ws(text, j + 1);
        if j2 < n && text.get_char(j2) == '}' {
            let d = Document::Object(Vec::new());
            proof {
                assert(pairs_view(Seq::<(String, Document)>::empty()) =~= Seq::<
                    (Seq<char>, DocView),
                >::empty());
            }
            return Ok((d, j2 + 1));
        }
        let sub = parse_members(text, j + 1);
        proof {
            lemma_members_fuel(s, j + 1, (f - 1) as nat, seq_fuel(s, j + 1));
        }
        match sub {
            Ok((pairs, e)) => Ok((Document::Object(pairs), e)),
            Err(p) => Err(p),
        }
    } else if c == '[' {
        let j2 = skip_ws(text, j + 1);
        if j2 < n && text.get_char(j2) == ']' {
            let d = Document::List(Vec::new());
            proof {
                assert(docs_view(Seq::<Document>::empty()) =~= Seq::<DocView>::empty());
            }
            return Ok((d, j2 + 1));
        }
        let sub = parse_items(text, j + 1);
        proof {
            lemma_items_fuel(s, j + 1, (f - 1) as nat, seq_fuel(s, j + 1));
        }
        match sub {
            Ok((items, e)) => Ok((Document::List(items), e)),
            Err(p) => Err(p),
        }
    } else if c == '"' {
        match parse_string_body(text, j + 1) {
            Ok((t, e)) => {
                proof {
                    lemma_string_body_pos(s, j + 1);
                }
                Ok((Document::Text(t), e))
            },
            Err(p) => Err(p),
        }
    } else if c != ' ' && c != '\t' && c != '\n' && c != '\r' && c != ',' && c != ':' && c != '}'
        && c != ']' {
        let e = scan_plain(text, j);
        proof {
            assert(is_plain_char(s[j as int]));
            lemma_plain_end(s, j as int + 1);
            assert(plain_end(s, j as int) > j as int);
        }
        match classify_token(text, j, e) {
            Ok(d) => Ok((d, e)),
            Err(p) => Err(p),
        }
    } else {
        proof {
            assert(!is_plain_char(s[j as int]));
        }
        Err(j)
    }
}

/// Read the remaining items of a list through its closing bracket.
fn parse_items(text: &str, i: usize) -> (r: Result<(Vec<Document>, usize), usize>)
    requires
        i as int <= text@.len(),
    ensures
        match r {
            Ok(p) => spec_items(text@, i as int, seq_fuel(text@, i as int)) == Some(
                (docs_view(p.0@), p.1 as int),
            ) && i < p.1 && p.1 as int <= text@.len(),
            Err(_) => spec_items(text@, i as int, seq_fuel(text@, i as int)) is None,
        },
    decreases text@.len() - i, 1int,
{
    let ghost s = text@;
    let ghost f = seq_fuel(s, i as int);
    let n = text.unicode_len();
    let sub = parse_value(text, i);
    proof {
        lemma_value_fuel(s, i as int, (f - 1) as nat, value_fuel(s, i as int));
    }
    match sub {
        Ok((v, j)) => {
            let k = skip_ws(text, j);
            if k < n && text.get_char(k) == ',' {
                let rest = parse_items(text, k + 1);
                proof {
                    lemma_items_fuel(s, k + 1, (f - 1) as nat, seq_fuel(s, k + 1));
                }
                match rest {
                    Ok((mut items, e)) => {
                        let ghost items_before = items@;
                        items.insert(0, v);
                        proof {
                            crate::document::lemma_docs_view_cons(items_before, v);
                        }
                        Ok((items, e))
                    },
                    Err(p) => Err(p),
                }
            } else if k < n && text.get_char(k) == ']' {
                let mut items: Vec<Document> = Vec::new();
                items.push(v);
                proof {
                    broadcast use crate::document::group_document_views;

                    assert(docs_view(items@) =~= seq![v@]);
                }
                Ok((items, k + 1))
            } else {
                Err(k)
            }
        },
        Err(p) => Err(p),
    }
}

/// Read the remaining members of an object through its closing brace.
fn parse_members(text: &str, i: usize) -> (r: Result<(Vec<(String, Document)>, usize), usize>)
    requires
        i as int <= text@.len(),
    ensures
        match r {
            Ok(p) => spec_members(text@, i as int, seq_fuel(text@, i as int)) == Some(
                (pairs_view(p.0@), p.1 as int),
            ) && i < p.1 && p.1 as int <= text@.len(),
            Err(_) => spec_members(text@, i as int, seq_fuel(text@, i as int)) is None,
        },
    decreases text@.len() - i, 1int,
{
    let ghost s = text@;
    let ghost f = seq_fuel(s, i as int);
    let n = text.unicode_len();
    let j = skip_ws(text, i);
    if j >= n {
        return Err(j);
    }
    let c = text.get_char(j);
    let key_sub: Result<(String, usize), usize> = if c == '"' {
        let sb = parse_string_body(text, j + 1);
        proof {
            lemma_string_body_pos(s, j + 1);
        }
        sb
    } else if c != ' ' && c != '\t' && c != '\n' && c != '\r' && c != ',' && c != ':' && c != '{'
        && c != '}' && c != '[' && c != ']' {
        let e = scan_plain(text, j);
        proof {
            assert(is_plain_char(s[j as int]));
            lemma_plain_end(s, j as int + 1);
            assert(plain_end(s, j as int) > j as int);
        }
        let key_text = text.substring_char(j, e);
        if plain_safe(key_text) {
            Ok((String::from_str(key_text), e))
        } else {
            return Err(j);
        }
    } else {
        proof {
            assert(!is_plain_char(s[j as int]));
        }
        Err(j)
    };
    match key_sub {
        Ok((key, j2)) => {
            let k = skip_ws(text, j2);
            if k < n && text.get_char(k) == ':' {
                let sub = parse_value(text, k + 1);
                proof {
                    lemma_value_fuel(s, k + 1, (f - 1) as nat, value_fuel(s, k + 1));
                }
                match sub {
                    Ok((v, j3)) => {
                        let k2 = skip_ws(text, j3);
                        if k2 < n && text.get_char(k2) == ',' {
                            let rest = parse_members(text, k2 + 1);
                            proof {
                                lemma_members_fuel(s, k2 + 1, (f - 1) as nat, seq_fuel(s, k2 + 1));
                            }
                            match rest {
                                Ok((mut pairs, e)) => {
                                    let ghost pairs_before = pairs@;
                                    pairs.insert(0, (key, v));
                                    proof {
                                        crate::document::lemma_pairs_view_cons(
                                            pairs_before,
                                            (key, v),
                                        );
                                    }
                                    Ok((pairs, e))
                                },
                                Err(p) => Err(p),
                            }
                        } else if k2 < n && text.get_char(k2) == '}' {
                            let mut pairs: Vec<(String, Document)> = Vec::new();
                            pairs.push((key, v));
                            proof {
                                broadcast use crate::document::group_document_views;

                                assert(pairs_view(pairs@) =~= seq![(key@, v@)]);
                            }
                            Ok((pairs, k2 + 1))
                        } else {
                            Err(k2)
                        }
                    },
                    Err(p) => Err(p),
                }
            } else {
                Err(k)
            }
        },
        Err(p) => Err(p),
    }
}

/// Read a whole text as one document: one value with nothing but whitespace
/// after it. On failure the error carries the character index at which
/// reading gave up.
pub fn parse_document(text: &str) -> (r: Result<Document, usize>)
    ensures
        match r {
            Ok(d) => spec_parse_text(text@) == Some(d@),
            Err(_) => spec_parse_text(text@) is None,
        },
{
    match parse_value(text, 0) {
        Ok((d, j)) => {
            let k = skip_ws(text, j);
            if k == text.unicode_len() {
                Ok(d)
            } else {
                Err(k)
            }
        },
        Err(p) => Err(p),
    }
}

// ---------------------------------------------------------------------------
// Round trip: parsing inverts emission
// ---------------------------------------------------------------------------

/// Whether a character may directly follow a value in flow style.
pub open spec fn is_value_end(c: char) -> bool {
    c == ',' || c == ']' || c == '}'
}

proof fn lemma_ws_end_exact(s: Seq<char>, i: int, e: int)
    requires
        0 <= i <= e <= s.len(),
        forall|k: int| i <= k < e ==> is_ws(#[trigger] s[k]),
        e == s.len() || !is_ws(s[e]),
    ensures
        ws_end(s, i) == e,
    decreases e - i,
{
    if i < e {
        lemma_ws_end_exact(s, i + 1, e);
    }
}

proof fn lemma_plain_end_exact(s: Seq<char>, i: int, e: int)
    requires
        0 <= i <= e <= s.len(),
        forall|k: int| i <= k < e ==> is_plain_char(#[trigger] s[k]),
        e == s.len() || !is_plain_char(s[e]),
    ensures
        plain_end(s, i) == e,
    decreases e - i,
{
    if i < e {
        lemma_plain_end_exact(s, i + 1, e);
    }
}

proof fn lemma_digit_is_plain(c: char)
    requires
        is_digit(c),
    ensures
        is_plain_char(c),
        !is_ws(c),
{
    assert(' ' as u32 == 32 && '\t' as u32 == 9 && '\n' as u32 == 10 && '\r' as u32 == 13);
    assert(',' as u32 == 44 && ':' as u32 == 58 && '{' as u32 == 123 && '}' as u32 == 125);
    assert('[' as u32 == 91 && ']' as u32 == 93 && '"' as u32 == 34);
}

proof fn lemma_plain_rest_is_plain(c: char)
    requires
        is_plain_rest(c),
    ensures
        is_plain_char(c),
        !is_ws(c),
{
    assert(' ' as u32 == 32 && '\t' as u32 == 9 && '\n' as u32 == 10 && '\r' as u32 == 13);
    assert(',' as u32 == 44 && ':' as u32 == 58 && '{' as u32 == 123 && '}' as u32 == 125);
    assert('[' as u32 == 91 && ']' as u32 == 93 && '"' as u32 == 34);
}

proof fn lemma_nat_chars_props(m: int)
    requires
        m >= 0,
    ensures
        spec_nat_chars(m).len() >= 1,
        all_digits(spec_nat_chars(m)),
        digits_val(spec_nat_chars(m)) == m,
        is_digit(spec_nat_chars(m)[0]),
        m >= 1 ==> spec_nat_chars(m)[0] != '0',
    decreases m,
{
    if m < 10 {
        let t = seq![digit_char(m)];
        assert(is_digit(digit_char(m)));
        assert(t.drop_last() =~= Seq::<char>::empty());
        assert(digits_val(Seq::<char>::empty()) == 0);
        assert(t.last() == digit_char(m));
        assert(digit_val(digit_char(m)) == m);
        assert(m >= 1 ==> digit_char(m) != '0') by {
            assert('0' as u32 == 48);
        }
    } else {
        lemma_nat_chars_props(m / 10);
        vstd::arithmetic::div_mod::lemma_fundamental_div_mod(m, 10);
        let u = spec_nat_chars(m / 10);
        let t = u.push(digit_char(m % 10));
        assert(t.drop_last() =~= u);
        assert(t.last() == digit_char(m % 10));
        assert(is_digit(digit_char(m % 10)));
        assert(all_digits(t)) by {
            assert(forall|k: int| 0 <= k < u.len() ==> t[k] == #[trigger] u[k]);
        }
        assert(digits_val(t) == digits_val(u) * 10 + (m % 10));
        assert(t[0] == u[0]);
    }
}

proof fn lemma_hex_of_hex_char(x: int)
    requires
        0 <= x < 16,
    ensures
        hex_val(hex_char(x)) == Some(x),
{
}

proof fn lemma_lower_identity_reserved()
    ensures
        spec_lower("null"@) == "null"@,
        spec_lower("true"@) == "true"@,
        spec_lower("false"@) == "false"@,
{
    reveal_strlit("null");
    reveal_strlit("true");
    reveal_strlit("false");
    assert(spec_lower("null"@) =~= "null"@) by {
        assert(forall|k: int|
            0 <= k < 4 ==> #[trigger] spec_lower("null"@)[k] == ascii_lower_char("null"@[k]));
    }
    assert(spec_lower("true"@) =~= "true"@) by {
        assert(forall|k: int|
            0 <= k < 4 ==> #[trigger] spec_lower("true"@)[k] == ascii_lower_char("true"@[k]));
    }
    assert(spec_lower("false"@) =~= "false"@) by {
        assert(forall|k: int|
            0 <= k < 5 ==> #[trigger] spec_lower("false"@)[k] == ascii_lower_char("false"@[k]));
    }
}

/// The first character of rendered text is neither whitespace, nor a value
/// terminator, nor a closing brace or colon.
proof fn lemma_text_first(t: Seq<char>)
    ensures
        spec_text_chars(t).len() > 0,
        !is_ws(spec_text_chars(t)[0]),
        !is_value_end(spec_text_chars(t)[0]),
        spec_text_chars(t)[0] != ':',
        spec_text_chars(t)[0] != '"' ==> is_plain_char(spec_text_chars(t)[0]),
{
    if is_plain_safe(t) {
        assert(is_plain_first(t[0]));
        lemma_plain_rest_is_plain(t[0]);
        assert(',' as u32 == 44 && ']' as u32 == 93 && '}' as u32 == 125 && ':' as u32 == 58);
    } else {
        assert(spec_text_chars(t)[0] == '"');
    }
}

/// The first character of a rendered value is neither whitespace nor a value
/// terminator.
proof fn lemma_emit_first(d: DocView)
    requires
        wf_doc(d),
    ensures
        spec_emit(d).len() > 0,
        !is_ws(spec_emit(d)[0]),
        !is_value_end(spec_emit(d)[0]),
{
    match d {
        DocView::Null => {
            reveal_strlit("null");
            assert(spec_emit(d)[0] == 'n');
        },
        DocView::Bool(b) => {
            reveal_strlit("true");
            reveal_strlit("false");
            if b {
                assert(spec_emit(d)[0] == 't');
            } else {
                assert(spec_emit(d)[0] == 'f');
            }
        },
        DocView::Int(n) => {
            if n >= 0 {
                lemma_nat_chars_props(n);
                lemma_digit_is_plain(spec_emit(d)[0]);
            } else {
                lemma_nat_chars_props(-n);
                assert(spec_emit(d)[0] == '-');
            }
        },
        DocView::Number(t) => {
            assert(spec_number_shape(t)) by {
                if !spec_number_shape(t) {
                    assert(spec_token(t) != Some(DocView::Number(t)));
                }
            }
            lemma_number_chars(t);
        },
        DocView::Text(t) => {
            lemma_text_first(t);
        },
        DocView::List(items) => {
            if items.len() == 0 {
                reveal_strlit("[]");
                assert(spec_emit(d)[0] == '[');
            } else {
                assert(spec_emit(d)[0] == '[');
            }
        },
        DocView::Object(pairs) => {
            if pairs.len() == 0 {
                reveal_strlit("{}");
                assert(spec_emit(d)[0] == '{');
            } else {
                assert(spec_emit(d)[0] == '{');
            }
        },
    }
}

/// Reading a double-quoted scalar inverts escaping: from just after the
/// opening quote, the escaped body followed by a closing quote reads back as
/// the original text.
proof fn lemma_string_body_of_escape(s: Seq<char>, i: int, t: Seq<char>)
    requires
        0 <= i,
        i + spec_escape(t).len() + 1 <= s.len(),
        s.subrange(i, i + spec_escape(t).len()) == spec_escape(t),
        s[(i + spec_escape(t).len()) as int] == '"',
    ensures
        spec_string_body(s, i) == Some((t, i + spec_escape(t).len() + 1)),
    decreases t.len(),
{
    let E = spec_escape(t);
    assert(forall|k: int| 0 <= k < E.len() ==> s[i + k] == #[trigger] E[k]) by {
        assert(forall|k: int|
            0 <= k < E.len() ==> #[trigger] s.subrange(i, i + E.len())[k] == s[i + k]);
    }
    if t.len() == 0 {
        assert(s[i] == '"');
    } else {
        let c = t[0];
        let ec = spec_escape_char(c);
        let rest = t.drop_first();
        let er = spec_escape(rest);
        assert(E == ec + er);
        assert forall|k: int| 0 <= k < ec.len() implies s[i + k] == #[trigger] ec[k] by {
            assert(s[i + k] == E[k]);
            assert(E[k] == (ec + er)[k]);
            assert((ec + er)[k] == ec[k]);
        }
        let i2 = i + ec.len();
        assert(s.subrange(i2, i2 + er.len()) =~= er) by {
            assert(forall|k: int|
                0 <= k < er.len() ==> #[trigger] s.subrange(i2, i2 + er.len())[k] == s[i2 + k]
                    && s[i2 + k] == E[(ec.len() + k) as int]);
        }
        assert(s[(i2 + er.len()) as int] == '"');
        lemma_string_body_of_escape(s, i2, rest);
        assert(seq![c] + rest =~= t);
        if c == '"' {
            assert(s[i] == '\\' && s[i + 1] == '"');
        } else if c == '\\' {
            assert(s[i] == '\\' && s[i + 1] == '\\');
        } else if c == '\n' {
            assert(s[i] == '\\' && s[i + 1] == 'n');
        } else if c == '\t' {
            assert(s[i] == '\\' && s[i + 1] == 't');
        } else if c == '\r' {
            assert(s[i] == '\\' && s[i + 1] == 'r');
        } else if (c as u32) < 32 {
            let u = c as u32 as int;
            assert(s[i] == '\\' && s[i + 1] == 'u' && s[i + 2] == '0' && s[i + 3] == '0');
            assert(s[i + 4] == hex_char(u / 16) && s[i + 5] == hex_char(u % 16));
            vstd::arithmetic::div_mod::lemma_fundamental_div_mod(u, 16);
            lemma_hex_of_hex_char(u / 16);
            lemma_hex_of_hex_char(u % 16);
            assert(hex_val('0') == Some(0int));
            let code = hex_val(s[i + 2])->Some_0 * 4096 + hex_val(s[i + 3])->Some_0 * 256
                + hex_val(s[i + 4])->Some_0 * 16 + hex_val(s[i + 5])->Some_0;
            assert(code == u);
            assert(code < 0xD800);
            vstd::utf8::char_u32_cast(c, code as u32);
            assert((code as u32) as char == c);
            assert(spec_string_body(s, i) == Some((seq![c] + rest, i2 + er.len() + 1)));
        } else {
            assert(s[i] == c);
            assert(c != '"' && c != '\\');
            assert(spec_string_body(s, i) == Some((seq![c] + rest, i2 + er.len() + 1)));
        }
    }
}

/// Reading a rendered value back yields that value: after skipping leading
/// whitespace, the rendering sits in `s` and is followed by a value
/// terminator or the end of the text.
#[verifier::rlimit(100)]
proof fn lemma_parse_emit_value(s: Seq<char>, i: int, d: DocView, f: nat)
    requires
        0 <= i <= s.len(),
        wf_doc(d),
        ws_end(s, i) + spec_emit(d).len() <= s.len(),
        s.subrange(ws_end(s, i), ws_end(s, i) + spec_emit(d).len()) == spec_emit(d),
        ws_end(s, i) + spec_emit(d).len() == s.len() || is_value_end(
            s[(ws_end(s, i) + spec_emit(d).len()) as int],
        ),
        f >= value_fuel(s, i),
    ensures
        spec_value(s, i, f) == Some((d, ws_end(s, i) + spec_emit(d).len())),
    decreases d, 0int,
{
    lemma_ws_end(s, i);
    let p = ws_end(s, i);
    let emitted = spec_emit(d);
    lemma_emit_first(d);
    assert forall|k: int| 0 <= k < emitted.len() implies s[p + k] == #[trigger] emitted[k] by {
        assert(s.subrange(p, p + emitted.len())[k] == s[p + k]);
    }
    assert(s[p] == emitted[0]);
    reveal_strlit("null");
    reveal_strlit("true");
    reveal_strlit("false");
    reveal_strlit("[]");
    reveal_strlit("{}");
    assert('{' as u32 == 123 && '[' as u32 == 91 && '"' as u32 == 34 && '-' as u32 == 45);
    match d {
        DocView::Null => {
            assert(emitted =~= "null"@);
            assert forall|k: int| p <= k < p + 4 implies is_plain_char(#[trigger] s[k]) by {
                assert(s[k] == emitted[(k - p) as int]);
                lemma_plain_rest_is_plain('n');
                lemma_plain_rest_is_plain('u');
                lemma_plain_rest_is_plain('l');
            }
            lemma_plain_end_exact(s, p, p + 4);
            assert(s.subrange(p, p + 4) =~= "null"@);
            assert(spec_token("null"@) == Some(DocView::Null));
        },
        DocView::Bool(b) => {
            if b {
                assert(emitted =~= "true"@);
                assert forall|k: int| p <= k < p + 4 implies is_plain_char(#[trigger] s[k]) by {
                    assert(s[k] == emitted[(k - p) as int]);
                    lemma_plain_rest_is_plain('t');
                    lemma_plain_rest_is_plain('r');
                    lemma_plain_rest_is_plain('u');
                    lemma_plain_rest_is_plain('e');
                }
                lemma_plain_end_exact(s, p, p + 4);
                assert(s.subrange(p, p + 4) =~= "true"@);
                assert("true"@ != "null"@) by {
                    assert("true"@[0] == 't' && "null"@[0] == 'n');
                }
                assert(spec_token("true"@) == Some(DocView::Bool(true)));
            } else {
                assert(emitted =~= "false"@);
                assert forall|k: int| p <= k < p + 5 implies is_plain_char(#[trigger] s[k]) by {
                    assert(s[k] == emitted[(k - p) as int]);
                    lemma_plain_rest_is_plain('f');
                    lemma_plain_rest_is_plain('a');
                    lemma_plain_rest_is_plain('l');
                    lemma_plain_rest_is_plain('s');
                    lemma_plain_rest_is_plain('e');
                }
                lemma_plain_end_exact(s, p, p + 5);
                assert(s.subrange(p, p + 5) =~= "false"@);
                assert("false"@ != "null"@ && "false"@ != "true"@) by {
                    assert("false"@.len() == 5 && "null"@.len() == 4 && "true"@.len() == 4);
                }
                assert(spec_token("false"@) == Some(DocView::Bool(false)));
            }
        },
        DocView::Int(n) => {
            let digits = if n >= 0 { spec_nat_chars(n) } else { spec_nat_chars(-n) };
            if n >= 0 {
                lemma_nat_chars_props(n);
                assert(emitted == digits);
            } else {
                lemma_nat_chars_props(-n);
                assert(emitted == seq!['-'] + digits);
                assert(emitted[0] == '-');
                assert forall|k: int| 0 <= k < digits.len() implies emitted[1 + k]
                    == #[trigger] digits[k] by {
                    assert((seq!['-'] + digits)[1 + k] == digits[k]);
                }
            }
            assert forall|k: int| p <= k < p + emitted.len() implies is_plain_char(
                #[trigger] s[k],
            ) by {
                if n >= 0 {
                    assert(is_digit(emitted[k - p]));
                    lemma_digit_is_plain(emitted[k - p]);
                } else {
                    if k == p {
                        assert(is_plain_rest('-'));
                        lemma_plain_rest_is_plain('-');
                    } else {
                        assert(emitted[k - p] == digits[k - p - 1]);
                        assert(is_digit(emitted[k - p]));
                        lemma_digit_is_plain(emitted[k - p]);
                    }
                }
            }
            lemma_plain_end_exact(s, p, p + emitted.len());
            let tok = s.subrange(p, p + emitted.len());
            assert(tok =~= emitted);
            assert(is_plain_char(s[p]));
            assert(s[p] != '{' && s[p] != '[' && s[p] != '"');
            if emitted == "null"@ {
                assert(emitted[0] == 'n');
                assert(is_digit(emitted[0]) || emitted[0] == '-');
                assert(false);
            }
            if emitted == "true"@ {
                assert(emitted[0] == 't');
                assert(false);
            }
            if emitted == "false"@ {
                assert(emitted[0] == 'f');
                assert(false);
            }
            assert(spec_int_shape(emitted)) by {
                if n >= 0 {
                    if emitted[0] == '0' {
                        assert(n == 0);
                        assert(emitted.len() == 1);
                    } else {
                        lemma_digits_end_exact(emitted, 0, emitted.len() as int);
                    }
                } else {
                    assert(emitted[1] == digits[0]);
                    assert(emitted[1] != '0') by {
                        if -n < 10 {
                            assert(digits[0] == digit_char(-n));
                        }
                    }
                    assert(forall|k: int| 1 <= k < emitted.len() ==> is_digit(#[trigger] emitted[k]));
                    lemma_digits_end_exact(emitted, 1, emitted.len() as int);
                }
            }
            assert(spec_number_shape(emitted)) by {
                let i0: int = if emitted[0] == '-' {
                    1
                } else {
                    0
                };
                assert(int_part_end(emitted, i0) == emitted.len());
                assert(frac_part_end(emitted, emitted.len() as int) == emitted.len());
                assert(exp_part_end(emitted, emitted.len() as int) == emitted.len());
            }
            if n >= 0 {
                assert(emitted[0] != '-') by {
                    assert(is_digit(emitted[0]));
                    assert('-' as u32 == 45);
                }
                assert(digits_val(emitted) == n);
                assert(spec_token(emitted) == Some(DocView::Int(n)));
            } else {
                assert(emitted[0] == '-');
                assert(emitted.drop_first() =~= digits);
                assert(digits_val(digits) == -n);
                assert(-n <= 0x8000_0000_0000_0000);
                assert(spec_token(emitted) == Some(DocView::Int(n)));
            }
        },
        DocView::Number(t) => {
            assert(spec_number_shape(t)) by {
                if !spec_number_shape(t) {
                    assert(spec_token(t) != Some(DocView::Number(t)));
                }
            }
            lemma_number_chars(t);
            assert(emitted == t);
            assert forall|k: int| p <= k < p + t.len() implies is_plain_char(#[trigger] s[k]) by {
                assert(s[k] == emitted[(k - p) as int]);
            }
            lemma_plain_end_exact(s, p, p + t.len());
            assert(s.subrange(p, p + t.len()) =~= t);
            assert(is_plain_char(s[p]));
            assert(s[p] != '{' && s[p] != '[' && s[p] != '"') by {
                assert('-' as u32 == 45);
                assert(t[0] == '-' || is_digit(t[0]));
            }
        },
        DocView::Text(t) => {
            if is_plain_safe(t) {
                assert(emitted == t);
                assert forall|k: int| p <= k < p + t.len() implies is_plain_char(
                    #[trigger] s[k],
                ) by {
                    assert(is_plain_rest(t[k - p]));
                    lemma_plain_rest_is_plain(t[k - p]);
                }
                lemma_plain_end_exact(s, p, p + t.len());
                assert(s.subrange(p, p + t.len()) =~= t);
                assert(is_plain_char(s[p]));
                assert(s[p] != '{' && s[p] != '[' && s[p] != '"');
                lemma_lower_identity_reserved();
                if t == "null"@ {
                    assert(spec_lower(t) == "null"@);
                    assert(spec_reserved_word(t));
                    assert(false);
                }
                if t == "true"@ {
                    assert(spec_lower(t) == "true"@);
                    assert(false);
                }
                if t == "false"@ {
                    assert(spec_lower(t) == "false"@);
                    assert(false);
                }
                assert(is_plain_first(t[0]));
                assert(!is_digit(t[0]) && t[0] != '-') by {
                    assert('-' as u32 == 45);
                }
                assert(!spec_number_shape(t)) by {
                    assert(int_part_end(t, 0) == -1);
                }
                assert(spec_token(t) == Some(DocView::Text(t)));
            } else {
                let esc = spec_escape(t);
                assert(emitted == seq!['"'] + esc + seq!['"']);
                assert(emitted[0] == '"');
                assert(s[p] == '"');
                assert forall|k: int| 0 <= k < esc.len() implies emitted[1 + k]
                    == #[trigger] esc[k] by {
                    assert((seq!['"'] + esc)[1 + k] == esc[k]);
                    assert((seq!['"'] + esc + seq!['"'])[1 + k] == (seq!['"'] + esc)[1 + k]);
                }
                assert(emitted[(1 + esc.len()) as int] == '"') by {
                    assert((seq!['"'] + esc + seq!['"'])[(1 + esc.len()) as int] == seq!['"'][0]);
                }
                assert(s.subrange(p + 1, p + 1 + esc.len()) =~= esc) by {
                    assert(forall|k: int|
                        0 <= k < esc.len() ==> #[trigger] s.subrange(p + 1, p + 1 + esc.len())[k]
                            == s[p + 1 + k]);
                }
                assert(s[(p + 1 + esc.len()) as int] == '"');
                lemma_string_body_of_escape(s, p + 1, t);
                assert(spec_string_body(s, p + 1) == Some((t, p + emitted.len())));
            }
        },
        DocView::List(items) => {
            if items.len() == 0 {
                assert(emitted == "[]"@);
                assert(s[p + 1] == emitted[1]);
                assert(s[p] == '[' && s[p + 1] == ']');
                assert(!is_ws(s[p + 1]));
                lemma_ws_end_exact(s, p + 1, p + 1);
                assert(spec_value(s, i, f) == Some((DocView::List(Seq::empty()), p + 2)));
                assert(items =~= Seq::<DocView>::empty());
            } else {
                let inner = spec_emit_items(items);
                assert(emitted == seq!['['] + inner + seq![']']);
                assert(emitted[0] == '[');
                assert forall|k: int| 0 <= k < inner.len() implies emitted[1 + k]
                    == #[trigger] inner[k] by {
                    assert((seq!['['] + inner)[1 + k] == inner[k]);
                    assert((seq!['['] + inner + seq![']'])[1 + k] == (seq!['['] + inner)[1 + k]);
                }
                assert(emitted[(1 + inner.len()) as int] == ']') by {
                    assert((seq!['['] + inner + seq![']'])[(1 + inner.len()) as int] == seq![']'][0]);
                }
                lemma_wf_docs_index(items, 0);
                lemma_emit_first(items[0]);
                assert(inner[0] == spec_emit(items[0])[0]) by {
                    if items.len() > 1 {
                        let e0 = spec_emit(items[0]);
                        let tail = seq![',', ' '] + spec_emit_items(items.drop_first());
                        assert(inner == e0 + tail);
                        assert((e0 + tail)[0] == e0[0]);
                    }
                }
                assert(s[p + 1] == inner[0]);
                assert(!is_ws(s[p + 1]));
                lemma_ws_end_exact(s, p + 1, p + 1);
                assert(s[p + 1] != ']');
                assert(s.subrange(p + 1, p + 1 + inner.len()) =~= inner) by {
                    assert(forall|k: int|
                        0 <= k < inner.len() ==> #[trigger] s.subrange(
                            p + 1,
                            p + 1 + inner.len(),
                        )[k] == s[p + 1 + k]);
                }
                assert(s[(p + 1 + inner.len()) as int] == ']');
                assert(decreases_to!(d => items));
                lemma_parse_emit_items(s, p + 1, items, (f - 1) as nat);
                assert(spec_items(s, p + 1, (f - 1) as nat) == Some(
                    (items, p + 1 + inner.len() + 1),
                ));
                assert(p + 1 + inner.len() + 1 == p + emitted.len());
            }
        },
        DocView::Object(pairs) => {
            if pairs.len() == 0 {
                assert(emitted == "{}"@);
                assert(s[p + 1] == emitted[1]);
                assert(s[p] == '{' && s[p + 1] == '}');
                assert(!is_ws(s[p + 1]));
                lemma_ws_end_exact(s, p + 1, p + 1);
                assert(spec_value(s, i, f) == Some((DocView::Object(Seq::empty()), p + 2)));
                assert(pairs =~= Seq::<(Seq<char>, DocView)>::empty());
            } else {
                let inner = spec_emit_members(pairs);
                assert(emitted == seq!['{'] + inner + seq!['}']);
                assert(emitted[0] == '{');
                assert forall|k: int| 0 <= k < inner.len() implies emitted[1 + k]
                    == #[trigger] inner[k] by {
                    assert((seq!['{'] + inner)[1 + k] == inner[k]);
                    assert((seq!['{'] + inner + seq!['}'])[1 + k] == (seq!['{'] + inner)[1 + k]);
                }
                assert(emitted[(1 + inner.len()) as int] == '}') by {
                    assert((seq!['{'] + inner + seq!['}'])[(1 + inner.len()) as int] == seq!['}'][0]);
                }
                lemma_text_first(pairs[0].0);
                assert(inner[0] == spec_text_chars(pairs[0].0)[0]) by {
                    let te = spec_text_chars(pairs[0].0);
                    let tail = seq![':', ' '] + spec_emit(pairs[0].1);
                    if pairs.len() > 1 {
                        let tail2 = tail + (seq![',', ' '] + spec_emit_members(
                            pairs.drop_first(),
                        ));
                        assert(inner == te + seq![':', ' '] + spec_emit(pairs[0].1) + seq![',', ' ']
                            + spec_emit_members(pairs.drop_first()));
                        assert(inner[0] == te[0]);
                    } else {
                        assert(inner == te + seq![':', ' '] + spec_emit(pairs[0].1));
                        assert(inner[0] == te[0]);
                    }
                }
                assert(s[p + 1] == inner[0]);
                assert(!is_ws(s[p + 1]));
                lemma_ws_end_exact(s, p + 1, p + 1);
                assert(s[p + 1] != '}');
                assert(s.subrange(p + 1, p + 1 + inner.len()) =~= inner) by {
                    assert(forall|k: int|
                        0 <= k < inner.len() ==> #[trigger] s.subrange(
                            p + 1,
                            p + 1 + inner.len(),
                        )[k] == s[p + 1 + k]);
                }
                assert(s[(p + 1 + inner.len()) as int] == '}');
                assert(decreases_to!(d => pairs));
                lemma_parse_emit_members(s, p + 1, pairs, (f - 1) as nat);
                assert(spec_members(s, p + 1, (f - 1) as nat) == Some(
                    (pairs, p + 1 + inner.len() + 1),
                ));
                assert(p + 1 + inner.len() + 1 == p + emitted.len());
            }
        },
    }
}

/// Reading rendered list items back yields those items: after skipping
/// leading whitespace, the comma-separated renderings sit in `s` followed by
/// the closing bracket.
proof fn lemma_parse_emit_items(s: Seq<char>, i: int, items: Seq<DocView>, f: nat)
    requires
        0 <= i <= s.len(),
        items.len() > 0,
        wf_docs(items),
        ws_end(s, i) + spec_emit_items(items).len() < s.len(),
        s.subrange(ws_end(s, i), ws_end(s, i) + spec_emit_items(items).len()) == spec_emit_items(
            items,
        ),
        s[(ws_end(s, i) + spec_emit_items(items).len()) as int] == ']',
        f >= seq_fuel(s, i),
    ensures
        spec_items(s, i, f) == Some((items, ws_end(s, i) + spec_emit_items(items).len() + 1)),
    decreases items, 1int,
{
    lemma_ws_end(s, i);
    let p = ws_end(s, i);
    let inner = spec_emit_items(items);
    assert forall|k: int| 0 <= k < inner.len() implies s[p + k] == #[trigger] inner[k] by {
        assert(s.subrange(p, p + inner.len())[k] == s[p + k]);
    }
    let d0 = items[0];
    let e0 = spec_emit(d0);
    lemma_wf_docs_index(items, 0);
    lemma_emit_first(d0);
    assert(decreases_to!(items => items[0]));
    if items.len() == 1 {
        assert(inner == e0);
        assert(ws_end(s, i) == p);
        lemma_parse_emit_value(s, i, d0, (f - 1) as nat);
        assert(spec_value(s, i, (f - 1) as nat) == Some((d0, p + e0.len())));
        assert(s[(p + e0.len()) as int] == ']');
        assert(!is_ws(s[(p + e0.len()) as int]));
        lemma_ws_end_exact(s, p + e0.len(), p + e0.len());
        assert(seq![d0] =~= items);
        assert(spec_items(s, i, f) == Some((items, p + e0.len() + 1)));
    } else {
        let rest = items.drop_first();
        let inner_rest = spec_emit_items(rest);
        assert(inner == e0 + seq![',', ' '] + inner_rest);
        assert forall|k: int| 0 <= k < e0.len() implies inner[k] == #[trigger] e0[k] by {
            assert((e0 + seq![',', ' '])[k] == e0[k]);
            assert((e0 + seq![',', ' '] + inner_rest)[k] == (e0 + seq![',', ' '])[k]);
        }
        assert(inner[(e0.len()) as int] == ',') by {
            assert((e0 + seq![',', ' '] + inner_rest)[(e0.len()) as int] == (e0 + seq![',', ' '])[(e0.len()) as int]);
            assert((e0 + seq![',', ' '])[(e0.len()) as int] == seq![',', ' '][0]);
        }
        assert(inner[(e0.len() + 1) as int] == ' ') by {
            assert((e0 + seq![',', ' '] + inner_rest)[(e0.len() + 1) as int] == (e0 + seq![',', ' '])[(e0.len()
                + 1) as int]);
            assert((e0 + seq![',', ' '])[(e0.len() + 1) as int] == seq![',', ' '][1]);
        }
        assert forall|k: int| 0 <= k < inner_rest.len() implies inner[(e0.len() + 2 + k) as int]
            == #[trigger] inner_rest[k] by {
            assert((e0 + seq![',', ' '] + inner_rest)[(e0.len() + 2 + k) as int] == inner_rest[k]);
        }
        // the first item, terminated by the comma
        assert(s.subrange(p, p + e0.len()) =~= e0);
        assert(s[(p + e0.len()) as int] == ',');
        lemma_parse_emit_value(s, i, d0, (f - 1) as nat);
        let j = p + e0.len();
        assert(spec_value(s, i, (f - 1) as nat) == Some((d0, j)));
        assert(!is_ws(s[j]));
        lemma_ws_end_exact(s, j, j);
        // the rest, after the comma and one space
        lemma_wf_docs_drop_first(items);
        lemma_wf_docs_index(rest, 0);
        lemma_emit_first(rest[0]);
        assert(inner_rest[0] == spec_emit(rest[0])[0]) by {
            if rest.len() > 1 {
                let e1 = spec_emit(rest[0]);
                let tail = seq![',', ' '] + spec_emit_items(rest.drop_first());
                assert(inner_rest == e1 + tail);
                assert((e1 + tail)[0] == e1[0]);
            }
        }
        assert(s[j + 1] == ' ');
        assert(s[j + 2] == inner_rest[0]);
        assert(is_ws(' '));
        assert(!is_ws(s[j + 2]));
        lemma_ws_end_exact(s, j + 1, j + 2);
        assert(ws_end(s, j + 1) == j + 2);
        assert(s.subrange(j + 2, j + 2 + inner_rest.len()) =~= inner_rest) by {
            assert(forall|k: int|
                0 <= k < inner_rest.len() ==> #[trigger] s.subrange(
                    j + 2,
                    j + 2 + inner_rest.len(),
                )[k] == s[j + 2 + k]);
        }
        assert(j + 2 + inner_rest.len() == p + inner.len());
        assert(s[(j + 2 + inner_rest.len()) as int] == ']');
        assert(decreases_to!(items => items.subrange(1, items.len() as int)));
        assert(items.drop_first() == items.subrange(1, items.len() as int));
        lemma_parse_emit_items(s, j + 1, rest, (f - 1) as nat);
        assert(spec_items(s, j + 1, (f - 1) as nat) == Some((rest, p + inner.len() + 1)));
        assert(seq![d0] + rest =~= items);
        assert(spec_items(s, i, f) == Some((items, p + inner.len() + 1)));
    }
}

/// Reading rendered object members back yields those members: after skipping
/// leading whitespace, the comma-separated `key: value` renderings sit in `s`
/// followed by the closing brace.
#[verifier::rlimit(100)]
proof fn lemma_parse_emit_members(s: Seq<char>, i: int, pairs: Seq<(Seq<char>, DocView)>, f: nat)
    requires
        0 <= i <= s.len(),
        pairs.len() > 0,
        wf_pairs(pairs),
        ws_end(s, i) + spec_emit_members(pairs).len() < s.len(),
        s.subrange(ws_end(s, i), ws_end(s, i) + spec_emit_members(pairs).len())
            == spec_emit_members(pairs),
        s[(ws_end(s, i) + spec_emit_members(pairs).len()) as int] == '}',
        f >= seq_fuel(s, i),
    ensures
        spec_members(s, i, f) == Some(
            (pairs, ws_end(s, i) + spec_emit_members(pairs).len() + 1),
        ),
    decreases pairs, 1int,
{
    lemma_ws_end(s, i);
    let p = ws_end(s, i);
    let inner = spec_emit_members(pairs);
    assert forall|k: int| 0 <= k < inner.len() implies s[p + k] == #[trigger] inner[k] by {
        assert(s.subrange(p, p + inner.len())[k] == s[p + k]);
    }
    let t0 = pairs[0].0;
    let v0 = pairs[0].1;
    let te = spec_text_chars(t0);
    let e0 = spec_emit(v0);
    lemma_wf_pairs_index(pairs, 0);
    lemma_text_first(t0);
    lemma_emit_first(v0);
    let head = te + seq![':', ' '] + e0;
    if pairs.len() == 1 {
        assert(inner == head);
    } else {
        assert(inner == head + seq![',', ' '] + spec_emit_members(pairs.drop_first()));
    }
    assert forall|k: int| 0 <= k < head.len() implies inner[k] == #[trigger] head[k] by {
        if pairs.len() > 1 {
            let tail = seq![',', ' '] + spec_emit_members(pairs.drop_first());
            assert((head + seq![',', ' '] + spec_emit_members(pairs.drop_first()))[k] == (head
                + seq![',', ' '])[k]);
            assert((head + seq![',', ' '])[k] == head[k]);
        }
    }
    assert forall|k: int| 0 <= k < te.len() implies head[k] == #[trigger] te[k] by {
        assert((te + seq![':', ' '])[k] == te[k]);
        assert((te + seq![':', ' '] + e0)[k] == (te + seq![':', ' '])[k]);
    }
    assert(head[(te.len()) as int] == ':') by {
        assert((te + seq![':', ' '] + e0)[(te.len()) as int] == (te + seq![':', ' '])[(te.len()) as int]);
        assert((te + seq![':', ' '])[(te.len()) as int] == seq![':', ' '][0]);
    }
    assert(head[(te.len() + 1) as int] == ' ') by {
        assert((te + seq![':', ' '] + e0)[(te.len() + 1) as int] == (te + seq![':', ' '])[(te.len() + 1) as int]);
        assert((te + seq![':', ' '])[(te.len() + 1) as int] == seq![':', ' '][1]);
    }
    assert forall|k: int| 0 <= k < e0.len() implies head[(te.len() + 2 + k) as int] == #[trigger] e0[k] by {
        assert((te + seq![':', ' '] + e0)[(te.len() + 2 + k) as int] == e0[k]);
    }
    // the key
    assert(s[p] == te[0]);
    assert(p < s.len());
    let j2 = p + te.len();
    if is_plain_safe(t0) {
        assert(te == t0);
        assert forall|k: int| p <= k < p + t0.len() implies is_plain_char(#[trigger] s[k]) by {
            assert(is_plain_rest(t0[k - p]));
            lemma_plain_rest_is_plain(t0[k - p]);
        }
        assert(s[j2] == ':');
        lemma_plain_end_exact(s, p, j2);
        assert(s.subrange(p, j2) =~= t0);
        assert(is_plain_safe(s.subrange(p, plain_end(s, p))));
        assert(s[p] != '"') by {
            assert(is_plain_first(t0[0]));
            assert('"' as u32 == 34);
        }
    } else {
        let esc = spec_escape(t0);
        assert(te == seq!['"'] + esc + seq!['"']);
        assert(te[0] == '"');
        assert(s[p] == '"');
        assert forall|k: int| 0 <= k < esc.len() implies te[1 + k] == #[trigger] esc[k] by {
            assert((seq!['"'] + esc)[1 + k] == esc[k]);
            assert((seq!['"'] + esc + seq!['"'])[1 + k] == (seq!['"'] + esc)[1 + k]);
        }
        assert(te[(1 + esc.len()) as int] == '"') by {
            assert((seq!['"'] + esc + seq!['"'])[(1 + esc.len()) as int] == seq!['"'][0]);
        }
        assert(s.subrange(p + 1, p + 1 + esc.len()) =~= esc) by {
            assert(forall|k: int|
                0 <= k < esc.len() ==> #[trigger] s.subrange(p + 1, p + 1 + esc.len())[k] == s[p + 1
                    + k]);
        }
        assert(s[(p + 1 + esc.len()) as int] == '"');
        lemma_string_body_of_escape(s, p + 1, t0);
        assert(spec_string_body(s, p + 1) == Some((t0, j2)));
    }
    // the colon and the value
    assert(s[j2] == ':');
    assert(!is_ws(s[j2]));
    lemma_ws_end_exact(s, j2, j2);
    assert(s[j2 + 1] == ' ');
    assert(s[j2 + 2] == e0[0]);
    lemma_ws_end_exact(s, j2 + 1, j2 + 2);
    assert(ws_end(s, j2 + 1) == j2 + 2);
    let j3 = j2 + 2 + e0.len();
    assert(s.subrange(j2 + 2, j3) =~= e0) by {
        assert(forall|k: int|
            0 <= k < e0.len() ==> #[trigger] s.subrange(j2 + 2, j3)[k] == s[j2 + 2 + k]);
    }
    if pairs.len() == 1 {
        assert(j3 == p + inner.len());
        assert(s[j3] == '}');
        assert(decreases_to!(pairs => pairs[0]));
        assert(decreases_to!(pairs[0] => pairs[0].1));
        lemma_parse_emit_value(s, j2 + 1, v0, (f - 1) as nat);
        assert(spec_value(s, j2 + 1, (f - 1) as nat) == Some((v0, j3)));
        assert(!is_ws(s[j3]));
        lemma_ws_end_exact(s, j3, j3);
        assert(seq![(t0, v0)] =~= pairs);
        assert(spec_members(s, i, f) == Some((pairs, j3 + 1)));
    } else {
        let rest = pairs.drop_first();
        let inner_rest = spec_emit_members(rest);
        assert(inner == head + seq![',', ' '] + inner_rest);
        assert(inner[(head.len()) as int] == ',') by {
            assert((head + seq![',', ' '] + inner_rest)[(head.len()) as int] == (head + seq![',', ' '])[(head.len()) as int]);
            assert((head + seq![',', ' '])[(head.len()) as int] == seq![',', ' '][0]);
        }
        assert(inner[(head.len() + 1) as int] == ' ') by {
            assert((head + seq![',', ' '] + inner_rest)[(head.len() + 1) as int] == (head + seq![
                ',',
                ' ',
            ])[(head.len() + 1) as int]);
            assert((head + seq![',', ' '])[(head.len() + 1) as int] == seq![',', ' '][1]);
        }
        assert forall|k: int| 0 <= k < inner_rest.len() implies inner[(head.len() + 2 + k) as int]
            == #[trigger] inner_rest[k] by {
            assert((head + seq![',', ' '] + inner_rest)[(head.len() + 2 + k) as int] == inner_rest[k]);
        }
        assert(j3 == p + head.len());
        assert(s[j3] == ',');
        assert(decreases_to!(pairs => pairs[0]));
        assert(decreases_to!(pairs[0] => pairs[0].1));
        lemma_parse_emit_value(s, j2 + 1, v0, (f - 1) as nat);
        assert(spec_value(s, j2 + 1, (f - 1) as nat) == Some((v0, j3)));
        assert(!is_ws(s[j3]));
        lemma_ws_end_exact(s, j3, j3);
        // the rest, after the comma and one space
        lemma_wf_pairs_drop_first(pairs);
        lemma_text_first(rest[0].0);
        assert(inner_rest[0] == spec_text_chars(rest[0].0)[0]) by {
            let te1 = spec_text_chars(rest[0].0);
            let head1 = te1 + seq![':', ' '] + spec_emit(rest[0].1);
            if rest.len() > 1 {
                assert(inner_rest == head1 + seq![',', ' '] + spec_emit_members(
                    rest.drop_first(),
                ));
                assert(inner_rest[0] == (head1 + seq![',', ' '])[0]);
                assert((head1 + seq![',', ' '])[0] == head1[0]);
                assert(head1[0] == (te1 + seq![':', ' '])[0]);
            } else {
                assert(inner_rest == head1);
                assert(head1[0] == (te1 + seq![':', ' '])[0]);
            }
        }
        assert(s[j3 + 1] == ' ');
        assert(s[j3 + 2] == inner_rest[0]);
        assert(!is_ws(s[j3 + 2]));
        lemma_ws_end_exact(s, j3 + 1, j3 + 2);
        assert(s.subrange(j3 + 2, j3 + 2 + inner_rest.len()) =~= inner_rest) by {
            assert(forall|k: int|
                0 <= k < inner_rest.len() ==> #[trigger] s.subrange(
                    j3 + 2,
                    j3 + 2 + inner_rest.len(),
                )[k] == s[j3 + 2 + k]);
        }
        assert(j3 + 2 + inner_rest.len() == p + inner.len());
        assert(s[(j3 + 2 + inner_rest.len()) as int] == '}');
        assert(decreases_to!(pairs => pairs.subrange(1, pairs.len() as int)));
        assert(pairs.drop_first() == pairs.subrange(1, pairs.len() as int));
        lemma_parse_emit_members(s, j3 + 1, rest, (f - 1) as nat);
        assert(spec_members(s, j3 + 1, (f - 1) as nat) == Some((rest, p + inner.len() + 1)));
        assert(seq![(t0, v0)] + rest =~= pairs);
        assert(spec_members(s, i, f) == Some((pairs, p + inner.len() + 1)));
    }
}

/// Parsing inverts emission: the rendering of any well-formed document shape
/// reads back as exactly that shape.
pub proof fn lemma_parse_of_emit(d: DocView)
    requires
        wf_doc(d),
    ensures
        spec_parse_text(spec_emit(d)) == Some(d),
{
    let s = spec_emit(d);
    lemma_emit_first(d);
    lemma_ws_end_exact(s, 0, 0);
    assert(s.subrange(0, s.len() as int) =~= s);
    lemma_parse_emit_value(s, 0, d, value_fuel(s, 0));
    lemma_ws_end_exact(s, s.len() as int, s.len() as int);
}

// ---------------------------------------------------------------------------
// Loading arbitrary YAML
// ---------------------------------------------------------------------------

/// The JSON rendering of a YAML document, if the YAML library accepts it:
/// what parsing the text as YAML and re-rendering the parsed value as JSON
/// yields. Both steps depend on the text alone.
pub uninterp spec fn yaml_as_json(s: Seq<char>) -> Option<Seq<char>>;

/// Relies on `serde_yaml_ng::from_str` and `serde_json::to_string`: parses
/// one YAML document into the YAML library's untyped value (mappings keep
/// their document order) and re-renders that value as JSON, in which form the
/// verified parser can read it. Two outside functions stand behind the one
/// name because only their composition is stated: each step is a function of
/// its input alone, so the composed result is a function of the text alone.
/// Fails when the text is not well-formed YAML or the value cannot be
/// rendered as JSON (for example, a non-string mapping key); the error
/// carries the library's description.
#[verifier::external_body]
fn normalize_yaml(text: &str) -> (r: Result<String, String>)
    ensures
        match r {
            Ok(j) => yaml_as_json(text@) == Some(j@),
            Err(_) => yaml_as_json(text@) is None,
        },
{
    match serde_yaml_ng::from_str::<serde_yaml_ng::Value>(text) {
        Ok(value) => match serde_json::to_string(&value) {
            Ok(j) => Ok(j),
            Err(e) => Err(format!("cannot render document as JSON: {}", e)),
        },
        Err(e) => Err(format!("{}", e)),
    }
}

/// The document a text denotes: read directly where the text lies in the
/// flow subset, else normalized through the YAML library first and then
/// read.
pub open spec fn spec_load_document(s: Seq<char>) -> Option<DocView> {
    match spec_parse_text(s) {
        Some(v) => Some(v),
        None => match yaml_as_json(s) {
            Some(j) => spec_parse_text(j),
            None => None,
        },
    }
}

/// Load a YAML text as a structured document.
///
/// Texts in the flow subset are read by the verified parser alone; any
/// other YAML document is first normalized to JSON by the YAML library and
/// then read. The two paths differ in one stated way: a flow mapping with a
/// duplicate key is kept with its first occurrence winning when read
/// directly, while the YAML library rejects such a document. Numeric
/// scalars outside `i64` keep the spelling they were written with. The
/// error carries a description of what was rejected, with the offending
/// position where the verified parser found it.
pub fn load_document(text: &str) -> (r: Result<Document, String>)
    ensures
        match r {
            Ok(d) => spec_load_document(text@) == Some(d@),
            Err(_) => spec_load_document(text@) is None,
        },
{
    match parse_document(text) {
        Ok(d) => Ok(d),
        Err(_) => match normalize_yaml(text) {
            Ok(j) => match parse_document(j.as_str()) {
                Ok(d) => Ok(d),
                Err(pos) => {
                    let mut message = String::from_str(
                        "unsupported scalar or structure in the document's JSON form at character ",
                    );
                    write_nat(pos as u64, &mut message);
                    Err(message)
                },
            },
            Err(m) => Err(m),
        },
    }
}

/// Loading what was rendered from a well-formed document shape yields that
/// shape: the rendering lies in the flow subset, so the verified parser
/// reads it back directly.
pub proof fn lemma_load_of_emit(d: DocView)
    requires
        wf_doc(d),
    ensures
        spec_load_document(spec_emit(d)) == Some(d),
{
    lemma_parse_of_emit(d);
}

} // verus!
