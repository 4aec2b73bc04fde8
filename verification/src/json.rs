//! Framing of the outbound bridge payload as a JSON object.
//!
//! The bridge call carries one JSON object whose keys are the synthetic group
//! keys and whose values are `{"title": …, "message": …, "timestamp": …}`.
//! The object is framed here, character by character, with the string
//! escaping JSON requires: quotes, backslashes and control characters are
//! escaped, everything else passes through unchanged. The caller only puts
//! the finished text on the wire.

use vstd::prelude::*;
use crate::text::{dec_digits, Alert};

verus! {

pub open spec fn hex_digit_char(d: nat) -> char {
    if d == 0 {
        '0'
    } else if d == 1 {
        '1'
    } else if d == 2 {
        '2'
    } else if d == 3 {
        '3'
    } else if d == 4 {
        '4'
    } else if d == 5 {
        '5'
    } else if d == 6 {
        '6'
    } else if d == 7 {
        '7'
    } else if d == 8 {
        '8'
    } else if d == 9 {
        '9'
    } else if d == 10 {
        'a'
    } else if d == 11 {
        'b'
    } else if d == 12 {
        'c'
    } else if d == 13 {
        'd'
    } else if d == 14 {
        'e'
    } else {
        'f'
    }
}

/// How one character appears inside a JSON string literal.
pub open spec fn escape_char(c: char) -> Seq<char> {
    if c == '"' {
        seq!['\\', '"']
    } else if c == '\\' {
        seq!['\\', '\\']
    } else if c == '\n' {
        seq!['\\', 'n']
    } else if c == '\r' {
        seq!['\\', 'r']
    } else if c == '\t' {
        seq!['\\', 't']
    } else if (c as u32) < 32 {
        let hi = hex_digit_char((c as u32 / 16) as nat);
        let lo = hex_digit_char((c as u32 % 16) as nat);
        seq!['\\', 'u', '0', '0', hi, lo]
    } else {
        seq![c]
    }
}

/// A whole string escaped for use inside a JSON string literal.
pub open spec fn json_escaped(s: Seq<char>) -> Seq<char>
    decreases s.len(),
{
    if s.len() == 0 {
        Seq::empty()
    } else {
        json_escaped(s.drop_last()) + escape_char(s.last())
    }
}

fn hex_digit_str(d: u32) -> (r: &'static str)
    requires
        d < 16,
    ensures
        r@ =~= seq![hex_digit_char(d as nat)],
{
    proof {
        reveal_strlit("0");
        reveal_strlit("1");
        reveal_strlit("2");
        reveal_strlit("3");
        reveal_strlit("4");
        reveal_strlit("5");
        reveal_strlit("6");
        reveal_strlit("7");
        reveal_strlit("8");
        reveal_strlit("9");
        reveal_strlit("a");
        reveal_strlit("b");
        reveal_strlit("c");
        reveal_strlit("d");
        reveal_strlit("e");
        reveal_strlit("f");
    }
    match d {
        0 => "0",
        1 => "1",
        2 => "2",
        3 => "3",
        4 => "4",
        5 => "5",
        6 => "6",
        7 => "7",
        8 => "8",
        9 => "9",
        10 => "a",
        11 => "b",
        12 => "c",
        13 => "d",
        14 => "e",
        _ => "f",
    }
}

/// Escape a string for inclusion inside a JSON string literal.
pub fn json_escape(s: &String) -> (r: String)
    ensures
        r@ == json_escaped(s@),
{
    let text = s.as_str();
    let n = text.unicode_len();
    let mut r = String::new();
    let mut i: usize = 0;
    proof {
        assert(s@.take(0) =~= Seq::<char>::empty());
    }
    while i < n
        invariant
            i <= n,
            n == s@.len(),
            text@ == s@,
            r@ == json_escaped(s@.take(i as int)),
        decreases n - i,
    {
        proof {
            assert(s@.take(i as int + 1).drop_last() =~= s@.take(i as int));
            assert(s@.take(i as int + 1).last() == s@[i as int]);
        }
        let c = text.get_char(i);
        if c == '"' {
            r.append("\\\"");
            proof {
                reveal_strlit("\\\"");
                assert(r@ =~= json_escaped(s@.take(i as int + 1)));
            }
        } else if c == '\\' {
            r.append("\\\\");
            proof {
                reveal_strlit("\\\\");
                assert(r@ =~= json_escaped(s@.take(i as int + 1)));
            }
        } else if c == '\n' {
            r.append("\\n");
            proof {
                reveal_strlit("\\n");
                assert(r@ =~= json_escaped(s@.take(i as int + 1)));
            }
        } else if c == '\r' {
            r.append("\\r");
            proof {
                reveal_strlit("\\r");
                assert(r@ =~= json_escaped(s@.take(i as int + 1)));
            }
        } else if c == '\t' {
            r.append("\\t");
            proof {
                reveal_strlit("\\t");
                assert(r@ =~= json_escaped(s@.take(i as int + 1)));
            }
        } else if (c as u32) < 32 {
            r.append("\\u00");
            r.append(hex_digit_str((c as u32) / 16));
            r.append(hex_digit_str((c as u32) % 16));
            proof {
                reveal_strlit("\\u00");
                assert(r@ =~= json_escaped(s@.take(i as int + 1)));
            }
        } else {
            r.append(text.substring_char(i, i + 1));
            proof {
                assert(text@.subrange(i as int, i as int + 1) =~= seq![s@[i as int]]);
                assert(r@ =~= json_escaped(s@.take(i as int + 1)));
            }
        }
        i += 1;
    }
    proof {
        assert(s@.take(n as int) =~= s@);
    }
    r
}

/// A possibly negative number in decimal.
pub open spec fn int_digits(n: int) -> Seq<char> {
    if n < 0 {
        seq!['-'] + dec_digits((-n) as nat)
    } else {
        dec_digits(n as nat)
    }
}

/// Render a signed number in decimal.
pub fn format_i64(n: i64) -> (s: String)
    ensures
        s@ == int_digits(n as int),
{
    if n < 0 {
        let mag: u64 = (-(n as i128)) as u64;
        let mut s = String::new();
        s.append("-");
        let digits = crate::text::format_u64(mag);
        s.append(digits.as_str());
        proof {
            reveal_strlit("-");
            assert(s@ =~= int_digits(n as int));
        }
        s
    } else {
        crate::text::format_u64(n as u64)
    }
}

/// One `"key":{"title":…,"message":…,"timestamp":…}` member of the payload
/// object.
pub open spec fn entry_json(key: Seq<char>, title: Seq<char>, message: Seq<char>, ts: int) -> Seq<
    char,
> {
    "\""@ + json_escaped(key) + "\":{\"title\":\""@ + json_escaped(title) + "\",\"message\":\""@
        + json_escaped(message) + "\",\"timestamp\":"@ + int_digits(ts) + "}"@
}

/// The member framed for one keyed alert.
pub open spec fn entry_json_of(e: (String, Alert)) -> Seq<char> {
    entry_json(e.0@, e.1.title@, e.1.message@, e.1.timestamp as int)
}

/// The members of the payload object, comma-separated, in payload order.
pub open spec fn entries_json(p: Seq<(String, Alert)>) -> Seq<char>
    decreases p.len(),
{
    if p.len() == 0 {
        Seq::empty()
    } else if p.len() == 1 {
        entry_json_of(p[0])
    } else {
        entries_json(p.drop_last()) + ","@ + entry_json_of(p.last())
    }
}

/// The whole bridge payload as one JSON object.
pub open spec fn payload_json(p: Seq<(String, Alert)>) -> Seq<char> {
    "{"@ + entries_json(p) + "}"@
}

fn entry_to_json(key: &String, alert: &Alert) -> (r: String)
    ensures
        r@ == entry_json(key@, alert.title@, alert.message@, alert.timestamp as int),
{
    let mut r = String::new();
    r.append("\"");
    let k = json_escape(key);
    r.append(k.as_str());
    r.append("\":{\"title\":\"");
    let t = json_escape(&alert.title);
    r.append(t.as_str());
    r.append("\",\"message\":\"");
    let m = json_escape(&alert.message);
    r.append(m.as_str());
    r.append("\",\"timestamp\":");
    let ts = format_i64(alert.timestamp);
    r.append(ts.as_str());
    r.append("}");
    proof {
        assert(r@ =~= entry_json(key@, alert.title@, alert.message@, alert.timestamp as int));
    }
    r
}

/// Frame the whole bridge payload as the JSON text the transport sends.
pub fn payload_to_json(p: &Vec<(String, Alert)>) -> (r: String)
    ensures
        r@ == payload_json(p@),
{
    let mut r = String::new();
    r.append("{");
    let mut k: usize = 0;
    proof {
        assert(p@.take(0) =~= Seq::<(String, Alert)>::empty());
        assert(r@ =~= "{"@ + entries_json(p@.take(0)));
    }
    while k < p.len()
        invariant
            k <= p@.len(),
            r@ == "{"@ + entries_json(p@.take(k as int)),
        decreases p@.len() - k,
    {
        proof {
            assert(p@.take(k as int + 1).drop_last() =~= p@.take(k as int));
            assert(p@.take(k as int + 1).last() == p@[k as int]);
        }
        if k > 0 {
            r.append(",");
        }
        let e = entry_to_json(&p[k].0, &p[k].1);
        r.append(e.as_str());
        proof {
            reveal_strlit(",");
            assert(e@ == entry_json_of(p@[k as int]));
            assert(r@ =~= "{"@ + entries_json(p@.take(k as int + 1)));
        }
        k += 1;
    }
    r.append("}");
    proof {
        assert(p@.take(p@.len() as int) =~= p@);
        assert(r@ =~= payload_json(p@));
    }
    r
}

} // verus!
