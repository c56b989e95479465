//! Verified JSON serialization: string escaping, and the dual-mode
//! rendering of references.
//!
//! A reference serializes as the full resolved entity once it has been
//! resolved, and as the single-field record `{"id": <id>}` before: the
//! shape of an emitted reference depends on whether it was resolved prior
//! to serialization.

use vstd::prelude::*;
use vstd::string::*;

use crate::models::category::{Category, CategoryV};
use crate::models::model::Model;
use crate::models::modelref::{Ref, RefV};
use crate::text::{dec_str_signed, i64_to_string, push_dec_i64};

verus! {

/// The lowercase hexadecimal digit character of one value below sixteen.
pub open spec fn hex_digit_char(d: int) -> char {
    if d == 0 {
        '0'
    } else if d == 1 {
        '1'
    } else if d == 2 {
        '2'
    } else if d == 3 {
        '3'
    } else if d == 4 {
        '4'
    } else if d == 5 {
        '5'
    } else if d == 6 {
        '6'
    } else if d == 7 {
        '7'
    } else if d == 8 {
        '8'
    } else if d == 9 {
        '9'
    } else if d == 10 {
        'a'
    } else if d == 11 {
        'b'
    } else if d == 12 {
        'c'
    } else if d == 13 {
        'd'
    } else if d == 14 {
        'e'
    } else {
        'f'
    }
}

/// How one character appears inside a JSON string literal: quote and
/// backslash escaped, the named control characters short-escaped, the other
/// control characters as `\u00XX`, everything else as itself.
pub open spec fn json_escape_char(c: char) -> Seq<char> {
    if c == '"' {
        seq!['\\', '"']
    } else if c == '\\' {
        seq!['\\', '\\']
    } else if c == '\u{08}' {
        seq!['\\', 'b']
    } else if c == '\u{09}' {
        seq!['\\', 't']
    } else if c == '\u{0A}' {
        seq!['\\', 'n']
    } else if c == '\u{0C}' {
        seq!['\\', 'f']
    } else if c == '\u{0D}' {
        seq!['\\', 'r']
    } else if (c as u32) < 0x20 {
        seq![
            '\\',
            'u',
            '0',
            '0',
            hex_digit_char(((c as u32) / 16) as int),
            hex_digit_char(((c as u32) % 16) as int),
        ]
    } else {
        seq![c]
    }
}

/// A text with every character escaped for a JSON string literal.
pub open spec fn json_escape(s: Seq<char>) -> Seq<char>
    decreases s.len(),
{
    if s.len() == 0 {
        Seq::empty()
    } else {
        json_escape_char(s[0]) + json_escape(s.drop_first())
    }
}

/// A JSON string literal: the escaped text between quotes.
pub open spec fn json_string_spec(s: Seq<char>) -> Seq<char> {
    seq!['"'] + json_escape(s) + seq!['"']
}

/// Escaping distributes over concatenation.
pub proof fn lemma_json_escape_concat(s1: Seq<char>, s2: Seq<char>)
    ensures
        json_escape(s1 + s2) == json_escape(s1) + json_escape(s2),
    decreases s1.len(),
{
    if s1.len() == 0 {
        assert(s1 + s2 =~= s2);
        assert(json_escape(s1) + json_escape(s2) =~= json_escape(s2));
    } else {
        assert((s1 + s2)[0] == s1[0]);
        assert((s1 + s2).drop_first() =~= s1.drop_first() + s2);
        lemma_json_escape_concat(s1.drop_first(), s2);
        assert(json_escape_char(s1[0]) + (json_escape(s1.drop_first()) + json_escape(s2))
            =~= (json_escape_char(s1[0]) + json_escape(s1.drop_first())) + json_escape(s2));
    }
}

/// A text without characters that need escaping escapes to itself.
pub proof fn lemma_json_escape_all_plain(s: Seq<char>)
    requires
        forall|j: int| 0 <= j < s.len() ==> json_escape_char(#[trigger] s[j]) == seq![s[j]],
    ensures
        json_escape(s) == s,
    decreases s.len(),
{
    if s.len() > 0 {
        assert forall|j: int| 0 <= j < s.drop_first().len() implies json_escape_char(
            #[trigger] s.drop_first()[j],
        ) == seq![s.drop_first()[j]] by {
            assert(s.drop_first()[j] == s[j + 1]);
        }
        lemma_json_escape_all_plain(s.drop_first());
        assert(seq![s[0]] + s.drop_first() =~= s);
    }
}

/// Appends one lowercase hexadecimal digit character.
fn push_hex_digit(s: &mut String, d: u32)
    requires
        d < 16,
    ensures
        final(s)@ == old(s)@ + seq![hex_digit_char(d as int)],
{
    proof {
        reveal_strlit("0");
        reveal_strlit("1");
        reveal_strlit("2");
        reveal_strlit("3");
        reveal_strlit("4");
        reveal_strlit("5");
        reveal_strlit("6");
        reveal_strlit("7");
        reveal_strlit("8");
        reveal_strlit("9");
        reveal_strlit("a");
        reveal_strlit("b");
        reveal_strlit("c");
        reveal_strlit("d");
        reveal_strlit("e");
        reveal_strlit("f");
    }
    match d {
        0 => s.append("0"),
        1 => s.append("1"),
        2 => s.append("2"),
        3 => s.append("3"),
        4 => s.append("4"),
        5 => s.append("5"),
        6 => s.append("6"),
        7 => s.append("7"),
        8 => s.append("8"),
        9 => s.append("9"),
        10 => s.append("a"),
        11 => s.append("b"),
        12 => s.append("c"),
        13 => s.append("d"),
        14 => s.append("e"),
        _ => s.append("f"),
    }
    proof {
        assert(final(s)@ =~= old(s)@ + seq![hex_digit_char(d as int)]);
    }
}

/// Appends the escape sequence of one character that needs escaping.
fn push_escaped_char(out: &mut String, c: char)
    requires
        json_escape_char(c) != seq![c],
    ensures
        final(out)@ == old(out)@ + json_escape_char(c),
{
    proof {
        reveal_strlit("\\\"");
        reveal_strlit("\\\\");
        reveal_strlit("\\b");
        reveal_strlit("\\t");
        reveal_strlit("\\n");
        reveal_strlit("\\f");
        reveal_strlit("\\r");
        reveal_strlit("\\u00");
    }
    if c == '"' {
        out.append("\\\"");
    } else if c == '\\' {
        out.append("\\\\");
    } else if c == '\u{08}' {
        out.append("\\b");
    } else if c == '\u{09}' {
        out.append("\\t");
    } else if c == '\u{0A}' {
        out.append("\\n");
    } else if c == '\u{0C}' {
        out.append("\\f");
    } else if c == '\u{0D}' {
        out.append("\\r");
    } else if (c as u32) < 0x20 {
        out.append("\\u00");
        push_hex_digit(out, (c as u32) / 16);
        push_hex_digit(out, (c as u32) % 16);
    } else {
        // A character that appears as itself has no escape sequence, and the
        // precondition rules it out.
        proof {
            assert(false);
        }
    }
    proof {
        assert(final(out)@ =~= old(out)@ + json_escape_char(c));
    }
}

/// Whether this character appears as itself inside a JSON string literal.
fn is_plain_char(c: char) -> (b: bool)
    ensures
        b == (json_escape_char(c) == seq![c]),
{
    let b = c != '"' && c != '\\' && (c as u32) >= 0x20;
    proof {
        if b {
            assert(json_escape_char(c) == seq![c]);
        } else {
            assert(json_escape_char(c) != seq![c]) by {
                assert(json_escape_char(c)[0] == '\\');
                assert(seq![c].len() == 1);
                if json_escape_char(c) == seq![c] {
                    assert(c == '\\');
                }
            }
        }
    }
    b
}

/// Appends a text escaped for a JSON string literal.
fn push_json_escaped(out: &mut String, text: &str)
    ensures
        final(out)@ == old(out)@ + json_escape(text@),
{
    let n = text.unicode_len();
    let mut start: usize = 0;
    let mut i: usize = 0;
    proof {
        assert(text@.take(0) =~= Seq::<char>::empty());
        assert(old(out)@ + json_escape(text@.take(0)) =~= old(out)@);
    }
    while i < n
        invariant
            start <= i <= n,
            n == text@.len(),
            out@ == old(out)@ + json_escape(text@.take(start as int)),
            forall|j: int|
                start <= j < i ==> json_escape_char(#[trigger] text@[j]) == seq![text@[j]],
        decreases n - i,
    {
        let c = text.get_char(i);
        if !is_plain_char(c) {
            let run = text.substring_char(start, i);
            out.append(run);
            push_escaped_char(out, c);
            proof {
                let prefix = text@.take(start as int);
                let plain = text@.subrange(start as int, i as int);
                assert forall|j: int| 0 <= j < plain.len() implies json_escape_char(
                    #[trigger] plain[j],
                ) == seq![plain[j]] by {
                    assert(plain[j] == text@[start + j]);
                }
                lemma_json_escape_all_plain(plain);
                lemma_json_escape_concat(prefix, plain);
                assert(prefix + plain =~= text@.take(i as int));
                assert(text@.take(i as int) + seq![c] =~= text@.take(i + 1));
                lemma_json_escape_concat(text@.take(i as int), seq![c]);
                let tail = seq![c].drop_first();
                assert(tail =~= Seq::<char>::empty());
                assert(json_escape(tail) =~= Seq::<char>::empty());
                assert(seq![c][0] == c);
                assert(json_escape(seq![c]) =~= json_escape_char(c) + json_escape(tail));
                assert(json_escape_char(c) + Seq::<char>::empty() =~= json_escape_char(c));
                assert(out@ =~= old(out)@ + json_escape(text@.take(i + 1)));
            }
            start = i + 1;
        }
        i += 1;
    }
    let run = text.substring_char(start, n);
    out.append(run);
    proof {
        let prefix = text@.take(start as int);
        let plain = text@.subrange(start as int, n as int);
        assert forall|j: int| 0 <= j < plain.len() implies json_escape_char(#[trigger] plain[j])
            == seq![plain[j]] by {
            assert(plain[j] == text@[start + j]);
        }
        lemma_json_escape_all_plain(plain);
        lemma_json_escape_concat(prefix, plain);
        assert(prefix + plain =~= text@);
        assert(final(out)@ =~= old(out)@ + json_escape(text@));
    }
}

/// Appends a JSON string literal.
pub fn push_json_string(out: &mut String, text: &str)
    ensures
        final(out)@ == old(out)@ + json_string_spec(text@),
{
    proof {
        reveal_strlit("\"");
    }
    out.append("\"");
    push_json_escaped(out, text);
    out.append("\"");
    proof {
        assert(final(out)@ =~= old(out)@ + json_string_spec(text@));
    }
}

/// A model whose values and identifiers serialize as JSON text.
pub trait ToJson: Model {
    /// The JSON text a value of this model serializes to.
    spec fn json_spec(v: Self::V) -> Seq<char>;

    /// The JSON text an identifier of this model serializes to.
    spec fn id_json_spec(id: Self::ID) -> Seq<char>;

    /// Serializes this value as JSON.
    fn to_json(&self) -> (s: String)
        ensures
            s@ == Self::json_spec(self@),
    ;

    /// Serializes an identifier of this model as JSON.
    fn id_to_json(id: Self::ID) -> (s: String)
        ensures
            s@ == Self::id_json_spec(id),
    ;
}

/// The JSON text a reference serializes to: the full resolved entity when a
/// cached value is present, and the single-field record `{"id": <id>}` when
/// only the identifier is held.
pub open spec fn ref_json_spec<M: ToJson>(r: RefV<M::ID, M::V>) -> Seq<char> {
    match r.value {
        Some(v) => M::json_spec(v),
        None => "{\"id\":"@ + M::id_json_spec(r.id) + "}"@,
    }
}

impl<M: ToJson> Ref<M> {
    /// Serializes the reference.
    ///
    /// If the reference holds the resolved model, the model's own
    /// serialization is emitted.  Otherwise, a record with just the model ID
    /// is emitted.
    pub fn serialize(&self) -> (s: String)
        ensures
            s@ == ref_json_spec::<M>(self@),
    {
        match self.cached_value() {
            Some(value) => value.to_json(),
            None => {
                let mut s = String::from_str("{\"id\":");
                let id_text = M::id_to_json(self.id);
                s.append(id_text.as_str());
                s.append("}");
                proof {
                    assert(s@ =~= ref_json_spec::<M>(self@));
                }
                s
            },
        }
    }
}

impl ToJson for Category {
    /// `{"id":<id>,"name":<name>}`, the fields in declaration order.
    open spec fn json_spec(v: CategoryV) -> Seq<char> {
        "{\"id\":"@ + dec_str_signed(v.id as int) + ",\"name\":"@ + json_string_spec(v.name)
            + "}"@
    }

    /// A category identifier serializes as its decimal text.
    open spec fn id_json_spec(id: i64) -> Seq<char> {
        dec_str_signed(id as int)
    }

    fn to_json(&self) -> (s: String) {
        let mut s = String::from_str("{\"id\":");
        push_dec_i64(&mut s, self.id);
        s.append(",\"name\":");
        push_json_string(&mut s, self.name.as_str());
        s.append("}");
        proof {
            assert(s@ =~= <Category as ToJson>::json_spec(self@));
        }
        s
    }

    fn id_to_json(id: i64) -> (s: String) {
        i64_to_string(id)
    }
}

} // verus!
