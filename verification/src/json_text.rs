//! Compact JSON text of a value: no whitespace, members in their order,
//! numbers as their text, and strings escaped the way `serde_json` writes
//! them (`\"`, `\\`, the short escapes `\b \t \n \f \r`, and `\u00XX` with
//! lower-case hex digits for the other control characters).

use vstd::prelude::*;
use vstd::string::*;

use crate::json::{json_model, lemma_array_model, lemma_object_model, member_models, models_of, JsonModel, JsonValue};

verus! {

broadcast use vstd::string::group_string_axioms;

/// The lower-case hexadecimal digit of `d` (for `d < 16`).
pub open spec fn hex_digit(d: nat) -> char {
    seq!['0', '1', '2', '3', '4', '5', '6', '7', '8', '9', 'a', 'b', 'c', 'd', 'e', 'f'][d as int]
}

/// How one character of a string is written inside the quotes.
pub open spec fn escape_char(c: char) -> Seq<char> {
    if c == '"' {
        seq!['\\', '"']
    } else if c == '\\' {
        seq!['\\', '\\']
    } else if c == '\u{8}' {
        seq!['\\', 'b']
    } else if c == '\t' {
        seq!['\\', 't']
    } else if c == '\n' {
        seq!['\\', 'n']
    } else if c == '\u{c}' {
        seq!['\\', 'f']
    } else if c == '\r' {
        seq!['\\', 'r']
    } else if (c as u32) < 0x20 {
        seq!['\\', 'u', '0', '0', hex_digit((c as u32 / 16) as nat), hex_digit((c as u32 % 16) as nat)]
    } else {
        seq![c]
    }
}

/// The characters of `s`, each escaped.
pub open spec fn escaped(s: Seq<char>) -> Seq<char>
    decreases s.len(),
{
    if s.len() == 0 {
        Seq::<char>::empty()
    } else {
        escaped(s.drop_last()) + escape_char(s.last())
    }
}

/// A string literal: `s` escaped, between double quotes.
pub open spec fn quoted(s: Seq<char>) -> Seq<char> {
    seq!['"'] + escaped(s) + seq!['"']
}

/// The compact JSON text of a value.
pub open spec fn json_text(m: JsonModel) -> Seq<char>
    decreases m, 0nat,
{
    match m {
        JsonModel::Null => seq!['n', 'u', 'l', 'l'],
        JsonModel::Bool(b) => if b {
            seq!['t', 'r', 'u', 'e']
        } else {
            seq!['f', 'a', 'l', 's', 'e']
        },
        JsonModel::Number(t) => t,
        JsonModel::String(s) => quoted(s),
        JsonModel::Array(items) => seq!['['] + items_text(items, items.len()) + seq![']'],
        JsonModel::Object(es) => seq!['{'] + members_text(es, es.len()) + seq!['}'],
    }
}

/// The texts of the first `n` items, separated by commas.
pub open spec fn items_text(items: Seq<JsonModel>, n: nat) -> Seq<char>
    decreases items, n,
{
    if n == 0 || n > items.len() {
        Seq::<char>::empty()
    } else {
        items_text(items, (n - 1) as nat) + (if n > 1 {
            seq![',']
        } else {
            Seq::<char>::empty()
        }) + json_text(items[n - 1])
    }
}

/// The texts of the first `n` members (`"name":value`), separated by
/// commas.
pub open spec fn members_text(es: Seq<(Seq<char>, JsonModel)>, n: nat) -> Seq<char>
    decreases es, n,
{
    if n == 0 || n > es.len() {
        Seq::<char>::empty()
    } else {
        members_text(es, (n - 1) as nat) + (if n > 1 {
            seq![',']
        } else {
            Seq::<char>::empty()
        }) + quoted(es[n - 1].0) + seq![':'] + json_text(es[n - 1].1)
    }
}

/// The one-character string holding hexadecimal digit `d`.
fn hex_str(d: u32) -> (r: &'static str)
    requires
        d < 16,
    ensures
        r@ == seq![hex_digit(d as nat)],
{
    let digits = "0123456789abcdef";
    proof {
        reveal_strlit("0123456789abcdef");
    }
    let i = d as usize;
    let r = digits.substring_char(i, i + 1);
    proof {
        assert(digits@ =~= seq!['0', '1', '2', '3', '4', '5', '6', '7', '8', '9', 'a', 'b', 'c', 'd', 'e', 'f']);
        assert(r@ =~= seq![digits@[i as int]]);
    }
    r
}

/// Appends the escaped characters of `s`.
fn write_escaped(s: &str, out: &mut String)
    ensures
        final(out)@ == old(out)@ + escaped(s@),
{
    let ghost start = out@;
    let n = s.unicode_len();
    let mut i: usize = 0;
    assert(s@.take(0) =~= Seq::<char>::empty());
    assert(start + Seq::<char>::empty() =~= start);
    while i < n
        invariant
            n == s@.len(),
            i <= n,
            out@ == start + escaped(s@.take(i as int)),
        decreases n - i,
    {
        let c = s.get_char(i);
        let ghost before = out@;
        proof {
            reveal_strlit("\\\"");
            reveal_strlit("\\\\");
            reveal_strlit("\\b");
            reveal_strlit("\\t");
            reveal_strlit("\\n");
            reveal_strlit("\\f");
            reveal_strlit("\\r");
            reveal_strlit("\\u00");
        }
        if c == '"' {
            out.append("\\\"");
        } else if c == '\\' {
            out.append("\\\\");
        } else if c == '\u{8}' {
            out.append("\\b");
        } else if c == '\t' {
            out.append("\\t");
        } else if c == '\n' {
            out.append("\\n");
        } else if c == '\u{c}' {
            out.append("\\f");
        } else if c == '\r' {
            out.append("\\r");
        } else if (c as u32) < 0x20 {
            out.append("\\u00");
            out.append(hex_str(c as u32 / 16));
            out.append(hex_str(c as u32 % 16));
        } else {
            out.append(s.substring_char(i, i + 1));
        }
        proof {
            assert(s@.take(i + 1).drop_last() =~= s@.take(i as int));
            assert(s@.take(i + 1).last() == c);
            assert(out@ =~= before + escape_char(c));
        }
        i = i + 1;
    }
    assert(s@.take(n as int) =~= s@);
}

/// Appends `s` as a JSON string literal.
fn write_quoted(s: &str, out: &mut String)
    ensures
        final(out)@ == old(out)@ + quoted(s@),
{
    proof {
        reveal_strlit("\"");
    }
    let ghost start = out@;
    out.append("\"");
    write_escaped(s, out);
    out.append("\"");
    assert(out@ =~= start + quoted(s@));
}

/// Appends the compact JSON text of `v`.
pub fn write_json(v: &JsonValue, out: &mut String)
    ensures
        final(out)@ == old(out)@ + json_text(json_model(*v)),
    decreases v, 0nat,
{
    let ghost start = out@;
    match v {
        JsonValue::Null => {
            proof {
                reveal_strlit("null");
            }
            out.append("null");
        },
        JsonValue::Bool(b) => {
            proof {
                reveal_strlit("true");
                reveal_strlit("false");
            }
            if *b {
                out.append("true");
            } else {
                out.append("false");
            }
        },
        JsonValue::Number(t) => {
            out.append(t.as_str());
        },
        JsonValue::String(s) => {
            write_quoted(s.as_str(), out);
        },
        JsonValue::Array(items) => {
            proof {
                reveal_strlit("[");
                reveal_strlit("]");
                lemma_array_model(*items);
            }
            out.append("[");
            write_items(items, out);
            out.append("]");
            assert(out@ =~= start + json_text(json_model(*v)));
        },
        JsonValue::Object(entries) => {
            proof {
                reveal_strlit("{");
                reveal_strlit("}");
                lemma_object_model(*entries);
            }
            out.append("{");
            write_members(entries, out);
            out.append("}");
            assert(out@ =~= start + json_text(json_model(*v)));
        },
    }
}

/// Appends the texts of `items`, separated by commas.
fn write_items(items: &Vec<JsonValue>, out: &mut String)
    ensures
        final(out)@ == old(out)@ + items_text(models_of(items@), items@.len()),
    decreases items, 1nat,
{
    let ghost start = out@;
    let ghost ms = models_of(items@);
    let mut i: usize = 0;
    assert(start + Seq::<char>::empty() =~= start);
    while i < items.len()
        invariant
            i <= items@.len(),
            ms == models_of(items@),
            out@ == start + items_text(ms, i as nat),
        decreases items.len() - i,
    {
        let ghost before = out@;
        let ghost sep = if i > 0 {
            seq![',']
        } else {
            Seq::<char>::empty()
        };
        proof {
            reveal_strlit(",");
            reveal_strlit(":");
        }
        if i > 0 {
            out.append(",");
        }
        assert(out@ =~= before + sep);
        write_json(&items[i], out);
        proof {
            assert(ms[i as int] == json_model(items@[i as int]));
            assert(items_text(ms, (i + 1) as nat) == items_text(ms, i as nat) + sep + json_text(
                ms[i as int],
            ));
            assert(out@ =~= start + items_text(ms, (i + 1) as nat));
        }
        i = i + 1;
    }
}

/// Appends the members of an object (`"name":value`), separated by commas.
fn write_members(entries: &Vec<(String, JsonValue)>, out: &mut String)
    ensures
        final(out)@ == old(out)@ + members_text(member_models(entries@), entries@.len()),
    decreases entries, 1nat,
{
    let ghost start = out@;
    let ghost ms = member_models(entries@);
    let mut i: usize = 0;
    assert(start + Seq::<char>::empty() =~= start);
    while i < entries.len()
        invariant
            i <= entries@.len(),
            ms == member_models(entries@),
            out@ == start + members_text(ms, i as nat),
        decreases entries.len() - i,
    {
        let ghost before = out@;
        let ghost sep = if i > 0 {
            seq![',']
        } else {
            Seq::<char>::empty()
        };
        proof {
            reveal_strlit(",");
            reveal_strlit(":");
        }
        if i > 0 {
            out.append(",");
        }
        assert(out@ =~= before + sep);
        write_quoted(entries[i].0.as_str(), out);
        out.append(":");
        let ghost mid = out@;
        write_json(&entries[i].1, out);
        proof {
            assert(ms[i as int] == (entries@[i as int].0@, json_model(entries@[i as int].1)));
            assert(mid =~= before + sep + quoted(ms[i as int].0) + seq![':']);
            assert(members_text(ms, (i + 1) as nat) == members_text(ms, i as nat) + sep + quoted(
                ms[i as int].0,
            ) + seq![':'] + json_text(ms[i as int].1));
            assert(out@ =~= start + members_text(ms, (i + 1) as nat));
        }
        i = i + 1;
    }
}

impl JsonValue {
    /// The compact JSON text of this value.
    pub fn to_json_text(&self) -> (r: String)
        ensures
            r@ == json_text(json_model(*self)),
    {
        let mut out = String::new();
        write_json(self, &mut out);
        assert(out@ =~= json_text(json_model(*self)));
        out
    }
}

} // verus!
