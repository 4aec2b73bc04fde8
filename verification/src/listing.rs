//! The one-shot listing: group every submarine under its owning character and
//! render the aligned display lines.
//!
//! Characters appear in the order of their first submarine in the input, so
//! the listing is a pure function of the rows it is given — nothing of the
//! notification or batching state leaks into it, and two runs over unchanged
//! backing data print exactly the same thing.

use vstd::prelude::*;
use crate::model::SubInfo;

verus! {

/// The heading a character is listed under: `"{name} «{tag}»"`.
pub open spec fn ident_spec(owner: Seq<char>, tag: Seq<char>) -> Seq<char> {
    owner + " «"@ + tag + "»"@
}

/// The heading of the character owning `sub`.
pub open spec fn ident_of(sub: SubInfo) -> Seq<char> {
    ident_spec(sub.character_name@, sub.tag@)
}

/// The distinct character headings of the input, each at its first
/// appearance.
pub open spec fn idents_spec(s: Seq<SubInfo>) -> Seq<Seq<char>>
    decreases s.len(),
{
    if s.len() == 0 {
        Seq::empty()
    } else {
        let rest = idents_spec(s.drop_last());
        if rest.contains(ident_of(s.last())) {
            rest
        } else {
            rest.push(ident_of(s.last()))
        }
    }
}

/// The submarines listed under one heading, in their input order.
pub open spec fn filter_ident_spec(s: Seq<SubInfo>, id: Seq<char>) -> Seq<SubInfo>
    decreases s.len(),
{
    if s.len() == 0 {
        Seq::empty()
    } else if ident_of(s[0]) == id {
        seq![s[0]] + filter_ident_spec(s.drop_first(), id)
    } else {
        filter_ident_spec(s.drop_first(), id)
    }
}

/// Compose the heading of the character owning this submarine.
pub fn compose_ident(sub: &SubInfo) -> (r: String)
    ensures
        r@ == ident_of(*sub),
{
    let mut r = String::new();
    r.append(sub.character_name.as_str());
    r.append(" «");
    r.append(sub.tag.as_str());
    r.append("»");
    proof {
        assert(r@ =~= ident_of(*sub));
    }
    r
}

fn idents_contain(ids: &Vec<String>, ident: &String) -> (r: bool)
    ensures
        r == ids@.map_values(|s: String| s@).contains(ident@),
{
    let ghost mapped = ids@.map_values(|s: String| s@);
    let mut j: usize = 0;
    while j < ids.len()
        invariant
            j <= ids@.len(),
            mapped == ids@.map_values(|s: String| s@),
            forall|k: int| 0 <= k < j ==> mapped[k] != ident@,
        decreases ids@.len() - j,
    {
        if ids[j] == *ident {
            assert(mapped[j as int] == ident@);
            return true;
        }
        assert(mapped[j as int] == ids@[j as int]@);
        j += 1;
    }
    assert(forall|k: int| 0 <= k < mapped.len() ==> mapped[k] != ident@);
    false
}

/// The distinct character headings, each at its first appearance.
fn collect_idents(subs: &Vec<SubInfo>) -> (ids: Vec<String>)
    ensures
        ids@.map_values(|s: String| s@) == idents_spec(subs@),
{
    let ghost s = subs@;
    let mut ids: Vec<String> = Vec::new();
    let mut i: usize = 0;
    proof {
        assert(s.take(0) =~= Seq::<SubInfo>::empty());
        assert(ids@.map_values(|t: String| t@) =~= idents_spec(s.take(0)));
    }
    while i < subs.len()
        invariant
            i <= s.len(),
            s == subs@,
            ids@.map_values(|t: String| t@) == idents_spec(s.take(i as int)),
        decreases s.len() - i,
    {
        let ghost prefix = s.take(i as int);
        let ghost prefix1 = s.take(i as int + 1);
        proof {
            assert(prefix1.drop_last() =~= prefix);
            assert(prefix1.last() == s[i as int]);
        }
        let ident = compose_ident(&subs[i]);
        let ghost ids_before = ids@;
        if !idents_contain(&ids, &ident) {
            ids.push(ident);
            proof {
                assert(ids@.map_values(|t: String| t@) =~= ids_before.map_values(|t: String| t@).push(
                    ident_of(s[i as int]),
                ));
            }
        }
        i += 1;
    }
    proof {
        assert(s.take(s.len() as int) =~= s);
    }
    ids
}

/// The submarines listed under one heading, in their input order.
fn filter_by_ident(subs: &Vec<SubInfo>, ident: &String) -> (r: Vec<SubInfo>)
    ensures
        r@ == filter_ident_spec(subs@, ident@),
{
    let ghost s = subs@;
    let mut r: Vec<SubInfo> = Vec::new();
    let mut i: usize = 0;
    proof {
        assert(s.skip(0) =~= s);
        assert(r@ + filter_ident_spec(s, ident@) =~= filter_ident_spec(s, ident@));
    }
    while i < subs.len()
        invariant
            i <= s.len(),
            s == subs@,
            filter_ident_spec(s, ident@) == r@ + filter_ident_spec(s.skip(i as int), ident@),
        decreases s.len() - i,
    {
        let ghost tail = s.skip(i as int);
        proof {
            assert(tail.len() > 0 && tail[0] == s[i as int]);
            assert(tail.drop_first() =~= s.skip(i as int + 1));
        }
        let sub_ident = compose_ident(&subs[i]);
        if sub_ident == *ident {
            r.push(subs[i].duplicate());
            proof {
                assert(r@.subrange(0, r@.len() - 1) + (seq![s[i as int]] + filter_ident_spec(
                    s.skip(i as int + 1),
                    ident@,
                )) =~= r@ + filter_ident_spec(s.skip(i as int + 1), ident@));
            }
        }
        i += 1;
    }
    proof {
        assert(s.skip(s.len() as int) =~= Seq::<SubInfo>::empty());
        assert(r@ + Seq::<SubInfo>::empty() =~= r@);
    }
    r
}

/// Whether `r` is exactly the listing of `subs`: one entry per distinct
/// character heading in first-appearance order, carrying that character's
/// submarines in input order.
pub open spec fn listing_matches(subs: Seq<SubInfo>, r: Seq<(String, Vec<SubInfo>)>) -> bool {
    &&& r.len() == idents_spec(subs).len()
    &&& forall|k: int| 0 <= k < r.len() ==> (#[trigger] r[k]).0@ == idents_spec(subs)[k]
    &&& forall|k: int|
        0 <= k < r.len() ==> (#[trigger] r[k]).1@ == filter_ident_spec(subs, idents_spec(subs)[k])
}

/// Group the rows by owning character, headings in order of first appearance,
/// each character's submarines in input order.
pub fn group_by_character(subs: &Vec<SubInfo>) -> (r: Vec<(String, Vec<SubInfo>)>)
    ensures
        listing_matches(subs@, r@),
{
    let ids = collect_idents(subs);
    let ghost mapped = ids@.map_values(|t: String| t@);
    let mut r: Vec<(String, Vec<SubInfo>)> = Vec::new();
    let mut k: usize = 0;
    while k < ids.len()
        invariant
            k <= ids@.len(),
            mapped == ids@.map_values(|t: String| t@),
            mapped == idents_spec(subs@),
            r@.len() == k,
            forall|j: int| 0 <= j < k ==> (#[trigger] r@[j]).0@ == mapped[j],
            forall|j: int|
                0 <= j < k ==> (#[trigger] r@[j]).1@ == filter_ident_spec(subs@, mapped[j]),
        decreases ids@.len() - k,
    {
        let heading = ids[k].clone();
        let members = filter_by_ident(subs, &heading);
        proof {
            assert(heading@ == mapped[k as int]);
        }
        r.push((heading, members));
        k += 1;
    }
    r
}

/// *Law (one-shot path is stable)*: the listing is a function of the rows
/// alone. Any two outputs that both match the same unchanged backing rows
/// carry the same headings in the same order with the same members, so
/// re-running the one-shot path twice prints identical output — no
/// notification or batching state can leak into it.
pub proof fn lemma_listing_deterministic(
    subs: Seq<SubInfo>,
    r1: Seq<(String, Vec<SubInfo>)>,
    r2: Seq<(String, Vec<SubInfo>)>,
)
    requires
        listing_matches(subs, r1),
        listing_matches(subs, r2),
    ensures
        r1.len() == r2.len(),
        forall|k: int|
            0 <= k < r1.len() ==> (#[trigger] r1[k]).0@ == r2[k].0@ && r1[k].1@ == r2[k].1@,
{
}

/// As many blanks as needed to align a name to the longest one.
pub open spec fn spaces(n: nat) -> Seq<char>
    decreases n,
{
    if n == 0 {
        Seq::empty()
    } else {
        spaces((n - 1) as nat).push(' ')
    }
}

fn make_spaces(n: usize) -> (s: String)
    ensures
        s@ == spaces(n as nat),
{
    let mut s = String::new();
    let mut i: usize = 0;
    proof {
        reveal_strlit(" ");
    }
    while i < n
        invariant
            i <= n,
            s@ == spaces(i as nat),
        decreases n - i,
    {
        s.append(" ");
        proof {
            reveal_strlit(" ");
            assert(s@ =~= spaces(i as nat + 1));
        }
        i += 1;
    }
    s
}

/// The length of the longest submarine name, in characters.
pub open spec fn max_name_len(s: Seq<SubInfo>) -> nat
    decreases s.len(),
{
    if s.len() == 0 {
        0
    } else {
        let rest = max_name_len(s.drop_last());
        if s.last().name@.len() > rest {
            s.last().name@.len()
        } else {
            rest
        }
    }
}

/// The longest submarine name of the input, in characters; names are padded
/// to it so the listed times line up.
pub fn longest_name_len(subs: &Vec<SubInfo>) -> (n: usize)
    ensures
        n == max_name_len(subs@),
{
    let ghost s = subs@;
    let mut n: usize = 0;
    let mut i: usize = 0;
    proof {
        assert(s.take(0) =~= Seq::<SubInfo>::empty());
    }
    while i < subs.len()
        invariant
            i <= s.len(),
            s == subs@,
            n == max_name_len(s.take(i as int)),
        decreases s.len() - i,
    {
        proof {
            assert(s.take(i as int + 1).drop_last() =~= s.take(i as int));
            assert(s.take(i as int + 1).last() == s[i as int]);
        }
        let l = subs[i].name.as_str().unicode_len();
        if l > n {
            n = l;
        }
        i += 1;
    }
    proof {
        assert(s.take(s.len() as int) =~= s);
    }
    n
}

/// One listing line: the indented name, a colon, the alignment padding, then
/// the caller-formatted local time and timezone abbreviation.
pub open spec fn line_spec(
    name: Seq<char>,
    longest: nat,
    time_str: Seq<char>,
    tz_abbr: Seq<char>,
) -> Seq<char>
    recommends
        name.len() <= longest,
{
    "  "@ + name + ":"@ + spaces((longest - name.len()) as nat) + " "@ + time_str + " "@ + tz_abbr
}

/// Render one aligned listing line for a submarine.
pub fn render_line(name: &String, longest: usize, time_str: &str, tz_abbr: &str) -> (r: String)
    requires
        name@.len() <= longest,
    ensures
        r@ == line_spec(name@, longest as nat, time_str@, tz_abbr@),
{
    let mut r = String::new();
    r.append("  ");
    r.append(name.as_str());
    r.append(":");
    let l = name.as_str().unicode_len();
    let pad = make_spaces(longest - l);
    r.append(pad.as_str());
    r.append(" ");
    r.append(time_str);
    r.append(" ");
    r.append(tz_abbr);
    proof {
        assert(r@ =~= line_spec(name@, longest as nat, time_str@, tz_abbr@));
    }
    r
}

/// Render a character's heading line: the heading and a colon.
pub fn render_heading(ident: &String) -> (r: String)
    ensures
        r@ == ident@ + ":"@,
{
    let mut r = String::new();
    r.append(ident.as_str());
    r.append(":");
    proof {
        assert(r@ =~= ident@ + ":"@);
    }
    r
}

} // verus!
