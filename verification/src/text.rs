//! Composition of the outbound alert text.
//!
//! A group of one reads `"{name} ({owner} «{tag}») returned on {time}"`; a
//! larger group adds `+ {n-1} others` and a `(+{n-1})` mark in its title. The
//! human-readable `{time}` string is locale work and is handed in by the
//! caller; everything else is composed and pinned down here, including the
//! decimal rendering of the counts and of the synthetic group keys.

use vstd::prelude::*;
use crate::group::AlertGroup;

verus! {

/// One outbound alert payload: what the bridge call carries per group key.
pub struct Alert {
    pub title: String,
    pub message: String,
    pub timestamp: i64,
}

/// The character standing for one decimal digit.
pub open spec fn digit_char(d: nat) -> char {
    if d == 0 {
        '0'
    } else if d == 1 {
        '1'
    } else if d == 2 {
        '2'
    } else if d == 3 {
        '3'
    } else if d == 4 {
        '4'
    } else if d == 5 {
        '5'
    } else if d == 6 {
        '6'
    } else if d == 7 {
        '7'
    } else if d == 8 {
        '8'
    } else {
        '9'
    }
}

/// The usual decimal rendering of `n`, most significant digit first, with no
/// leading zeros (a lone zero for 0).
pub open spec fn dec_digits(n: nat) -> Seq<char>
    decreases n,
{
    if n < 10 {
        seq![digit_char(n)]
    } else {
        dec_digits(n / 10).push(digit_char(n % 10))
    }
}

fn digit_str(d: u64) -> (r: &'static str)
    requires
        d < 10,
    ensures
        r@ =~= seq![digit_char(d as nat)],
{
    proof {
        reveal_strlit("0");
        reveal_strlit("1");
        reveal_strlit("2");
        reveal_strlit("3");
        reveal_strlit("4");
        reveal_strlit("5");
        reveal_strlit("6");
        reveal_strlit("7");
        reveal_strlit("8");
        reveal_strlit("9");
    }
    match d {
        0 => "0",
        1 => "1",
        2 => "2",
        3 => "3",
        4 => "4",
        5 => "5",
        6 => "6",
        7 => "7",
        8 => "8",
        _ => "9",
    }
}

/// Render `n` in decimal.
pub fn format_u64(n: u64) -> (s: String)
    ensures
        s@ == dec_digits(n as nat),
    decreases n,
{
    if n < 10 {
        let s = String::from_str(digit_str(n));
        proof {
            assert(s@ =~= dec_digits(n as nat));
        }
        s
    } else {
        let mut s = format_u64(n / 10);
        s.append(digit_str(n % 10));
        proof {
            assert(s@ =~= dec_digits(n as nat));
        }
        s
    }
}

/// The alert title: `"{name} returned"`, with a `(+{n-1})` mark for a batch.
pub open spec fn title_spec(name: Seq<char>, member_count: nat) -> Seq<char> {
    if member_count <= 1 {
        name + " returned"@
    } else {
        name + " (+"@ + dec_digits((member_count - 1) as nat) + ") returned"@
    }
}

/// The alert body, around the caller-formatted local time string.
pub open spec fn message_spec(
    name: Seq<char>,
    owner: Seq<char>,
    tag: Seq<char>,
    member_count: nat,
    time_str: Seq<char>,
) -> Seq<char> {
    if member_count <= 1 {
        name + " ("@ + owner + " «"@ + tag + "») returned on "@ + time_str
    } else {
        name + " ("@ + owner + " «"@ + tag + "») + "@ + dec_digits((member_count - 1) as nat)
            + " others returned on "@ + time_str
    }
}

/// The synthetic key a batched alert is emitted under: the representative's
/// owner and tag, then the group's sequence number.
pub open spec fn key_spec(owner: Seq<char>, tag: Seq<char>, seq_no: nat) -> Seq<char> {
    owner + "«"@ + tag + "»-"@ + dec_digits(seq_no)
}

/// Compose the alert title for a group of `member_count` represented by `name`.
pub fn compose_title(name: &String, member_count: usize) -> (t: String)
    ensures
        t@ == title_spec(name@, member_count as nat),
{
    let mut t = String::new();
    t.append(name.as_str());
    if member_count > 1 {
        t.append(" (+");
        let others = format_u64((member_count - 1) as u64);
        t.append(others.as_str());
        t.append(") returned");
    } else {
        t.append(" returned");
    }
    proof {
        assert(t@ =~= title_spec(name@, member_count as nat));
    }
    t
}

/// Compose the alert body for a group of `member_count` represented by `name`,
/// owned by `owner` with clan tag `tag`, around the given local time string.
pub fn compose_message(
    name: &String,
    owner: &String,
    tag: &String,
    member_count: usize,
    time_str: &str,
) -> (m: String)
    ensures
        m@ == message_spec(name@, owner@, tag@, member_count as nat, time_str@),
{
    let mut m = String::new();
    m.append(name.as_str());
    m.append(" (");
    m.append(owner.as_str());
    m.append(" «");
    m.append(tag.as_str());
    if member_count > 1 {
        m.append("») + ");
        let others = format_u64((member_count - 1) as u64);
        m.append(others.as_str());
        m.append(" others returned on ");
    } else {
        m.append("») returned on ");
    }
    m.append(time_str);
    proof {
        reveal_strlit("») returned on ");
        reveal_strlit("»)");
        reveal_strlit(" returned on ");
        reveal_strlit("») + ");
        assert(m@ =~= message_spec(name@, owner@, tag@, member_count as nat, time_str@));
    }
    m
}

/// Compose the synthetic key a group's alert is emitted under.
pub fn compose_key(owner: &String, tag: &String, seq_no: u64) -> (k: String)
    ensures
        k@ == key_spec(owner@, tag@, seq_no as nat),
{
    let mut k = String::new();
    k.append(owner.as_str());
    k.append("«");
    k.append(tag.as_str());
    k.append("»-");
    let num = format_u64(seq_no);
    k.append(num.as_str());
    proof {
        assert(k@ =~= key_spec(owner@, tag@, seq_no as nat));
    }
    k
}

/// Compose the whole outbound alert for one group, timestamped with the
/// group's earliest due time.
pub fn compose_alert(g: &AlertGroup, time_str: &str) -> (a: Alert)
    ensures
        a.title@ == title_spec(g.representative.name@, g.member_count as nat),
        a.message@ == message_spec(
            g.representative.name@,
            g.representative.character_name@,
            g.representative.tag@,
            g.member_count as nat,
            time_str@,
        ),
        a.timestamp == g.first_return_time,
{
    Alert {
        title: compose_title(&g.representative.name, g.member_count),
        message: compose_message(
            &g.representative.name,
            &g.representative.character_name,
            &g.representative.tag,
            g.member_count,
            time_str,
        ),
        timestamp: g.first_return_time,
    }
}

/// Whether a run of keyed alerts is exactly what the bridge payload for these
/// groups and these formatted times must hold.
pub open spec fn payload_matches(
    groups: Seq<AlertGroup>,
    times: Seq<Seq<char>>,
    r: Seq<(String, Alert)>,
) -> bool {
    &&& r.len() == groups.len()
    &&& forall|k: int|
        0 <= k < r.len() ==> {
            &&& (#[trigger] r[k]).0@ == key_spec(
                groups[k].representative.character_name@,
                groups[k].representative.tag@,
                k as nat,
            )
            &&& r[k].1.title@ == title_spec(
                groups[k].representative.name@,
                groups[k].member_count as nat,
            )
            &&& r[k].1.message@ == message_spec(
                groups[k].representative.name@,
                groups[k].representative.character_name@,
                groups[k].representative.tag@,
                groups[k].member_count as nat,
                times[k],
            )
            &&& r[k].1.timestamp == groups[k].first_return_time
        }
}

/// Build the bridge payload: one keyed alert per group, keys numbered in
/// emission order, each composed around its caller-formatted time string.
pub fn build_bridge_payload(groups: &Vec<AlertGroup>, time_strs: &Vec<String>) -> (r: Vec<
    (String, Alert),
>)
    requires
        time_strs@.len() == groups@.len(),
    ensures
        payload_matches(groups@, time_strs@.map_values(|t: String| t@), r@),
{
    let mut r: Vec<(String, Alert)> = Vec::new();
    let mut k: usize = 0;
    while k < groups.len()
        invariant
            k <= groups@.len(),
            time_strs@.len() == groups@.len(),
            r@.len() == k,
            payload_matches(groups@.take(k as int), time_strs@.map_values(|t: String| t@).take(k as int), r@),
        decreases groups@.len() - k,
    {
        let g = &groups[k];
        let key = compose_key(&g.representative.character_name, &g.representative.tag, k as u64);
        let alert = compose_alert(g, time_strs[k].as_str());
        r.push((key, alert));
        k += 1;
    }
    proof {
        assert(groups@.take(groups@.len() as int) =~= groups@);
        assert(time_strs@.map_values(|t: String| t@).take(groups@.len() as int) =~= time_strs@.map_values(
            |t: String| t@,
        ));
    }
    r
}

} // verus!
