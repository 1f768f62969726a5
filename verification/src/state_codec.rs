//! The persisted state document:
//! `{"desktops":[{"id":I,"name":N},...],"active_desktop_id":A,`
//! `"original_desktop_path":P,"virtual_desktop_mapping":{"I":S,...}}`.
//! Printing is canonical; loading falls back to a fresh default state on
//! a missing, unreadable or ill-formed document, and never fails.

use vstd::prelude::*;
use vstd::string::*;
use crate::config::{config_wf, DesktopConfig, KimiConfig};
use crate::json::{p_i32, p_lit, p_string, parse_i32, parse_lit, parse_string, append_quoted, str_rep};
use crate::text::{append_i32, int_rep};

verus! {

/// A parsed profile: id and name.
pub type DeskVal = (int, Seq<char>);

/// The profiles as id/name pairs.
pub open spec fn desks_view(ds: Seq<DesktopConfig>) -> Seq<DeskVal> {
    ds.map_values(|d: DesktopConfig| (d.id as int, d.name@))
}

/// The links as id/slot pairs.
pub open spec fn links_view(m: Seq<(i32, String)>) -> Seq<DeskVal> {
    m.map_values(|l: (i32, String)| (l.0 as int, l.1@))
}

/// `{"desktops":[`
pub open spec fn lit_cfg_open() -> Seq<char> {
    "{\"desktops\":["@
}

/// `],"active_desktop_id":`
pub open spec fn lit_cfg_active() -> Seq<char> {
    "],\"active_desktop_id\":"@
}

/// `,"original_desktop_path":`
pub open spec fn lit_cfg_orig() -> Seq<char> {
    ",\"original_desktop_path\":"@
}

/// `,"virtual_desktop_mapping":{`
pub open spec fn lit_cfg_map() -> Seq<char> {
    ",\"virtual_desktop_mapping\":{"@
}

/// `{"id":`
pub open spec fn lit_desk_id() -> Seq<char> {
    "{\"id\":"@
}

/// `,"name":`
pub open spec fn lit_desk_name() -> Seq<char> {
    ",\"name\":"@
}

/// Printed form of one profile.
pub open spec fn desk_rep(d: DeskVal) -> Seq<char> {
    lit_desk_id() + int_rep(d.0) + lit_desk_name() + str_rep(d.1) + seq!['}']
}

/// Printed form of the profile list, comma separated.
pub open spec fn desks_rep(ds: Seq<DeskVal>) -> Seq<char>
    decreases ds.len(),
{
    if ds.len() == 0 {
        Seq::<char>::empty()
    } else if ds.len() == 1 {
        desk_rep(ds[0])
    } else {
        desk_rep(ds[0]) + seq![','] + desks_rep(ds.drop_first())
    }
}

/// Printed form of one link: the id quoted as a key, then the slot.
pub open spec fn link_rep(l: DeskVal) -> Seq<char> {
    seq!['"'] + int_rep(l.0) + seq!['"', ':'] + str_rep(l.1)
}

/// Printed form of the link table, comma separated.
pub open spec fn links_rep(ls: Seq<DeskVal>) -> Seq<char>
    decreases ls.len(),
{
    if ls.len() == 0 {
        Seq::<char>::empty()
    } else if ls.len() == 1 {
        link_rep(ls[0])
    } else {
        link_rep(ls[0]) + seq![','] + links_rep(ls.drop_first())
    }
}

/// Printed form of the whole state document.
pub open spec fn config_rep(
    ds: Seq<DeskVal>,
    active: int,
    orig: Seq<char>,
    links: Seq<DeskVal>,
) -> Seq<char> {
    lit_cfg_open() + desks_rep(ds) + lit_cfg_active() + int_rep(active) + lit_cfg_orig()
        + str_rep(orig) + lit_cfg_map() + links_rep(links) + seq!['}', '}']
}

// ---------------------------------------------------------------------------
// Spec parser
// ---------------------------------------------------------------------------

/// One profile at position `i`.
pub open spec fn p_desk(s: Seq<char>, i: int) -> Option<(DeskVal, int)> {
    match p_lit(s, i, lit_desk_id()) {
        Some(j1) => match p_i32(s, j1) {
            Some((id, j2)) => match p_lit(s, j2, lit_desk_name()) {
                Some(j3) => match p_string(s, j3) {
                    Some((name, j4)) => match p_lit(s, j4, seq!['}']) {
                        Some(j5) => Some(((id, name), j5)),
                        None => None,
                    },
                    None => None,
                },
                None => None,
            },
            None => None,
        },
        None => None,
    }
}

/// One or more profiles, comma separated, from `i`.
pub open spec fn p_desks(s: Seq<char>, i: int) -> Option<(Seq<DeskVal>, int)>
    decreases s.len() - i,
{
    match p_desk(s, i) {
        Some((d, j)) => if i < j && j < s.len() && s[j] == ',' {
            match p_desks(s, j + 1) {
                Some((ds, k)) => Some((seq![d] + ds, k)),
                None => None,
            }
        } else if i < j {
            Some((seq![d], j))
        } else {
            None
        },
        None => None,
    }
}

/// One link at position `i`.
pub open spec fn p_link(s: Seq<char>, i: int) -> Option<(DeskVal, int)> {
    match p_lit(s, i, seq!['"']) {
        Some(j1) => match p_i32(s, j1) {
            Some((id, j2)) => match p_lit(s, j2, seq!['"', ':']) {
                Some(j3) => match p_string(s, j3) {
                    Some((slot, j4)) => Some(((id, slot), j4)),
                    None => None,
                },
                None => None,
            },
            None => None,
        },
        None => None,
    }
}

/// One or more links, comma separated, from `i`.
pub open spec fn p_links(s: Seq<char>, i: int) -> Option<(Seq<DeskVal>, int)>
    decreases s.len() - i,
{
    match p_link(s, i) {
        Some((l, j)) => if i < j && j < s.len() && s[j] == ',' {
            match p_links(s, j + 1) {
                Some((ls, k)) => Some((seq![l] + ls, k)),
                None => None,
            }
        } else if i < j {
            Some((seq![l], j))
        } else {
            None
        },
        None => None,
    }
}

/// The whole state document.
pub open spec fn p_config(s: Seq<char>) -> Option<(Seq<DeskVal>, int, Seq<char>, Seq<DeskVal>)> {
    match p_lit(s, 0, lit_cfg_open()) {
        Some(i0) => {
            let dsr: Option<(Seq<DeskVal>, int)> = if i0 < s.len() && s[i0] == '{' {
                p_desks(s, i0)
            } else {
                Some((Seq::<DeskVal>::empty(), i0))
            };
            match dsr {
                Some((ds, i1)) => match p_lit(s, i1, lit_cfg_active()) {
                    Some(i2) => match p_i32(s, i2) {
                        Some((active, i3)) => match p_lit(s, i3, lit_cfg_orig()) {
                            Some(i4) => match p_string(s, i4) {
                                Some((orig, i5)) => match p_lit(s, i5, lit_cfg_map()) {
                                    Some(i6) => {
                                        let lsr: Option<(Seq<DeskVal>, int)> = if i6 < s.len()
                                            && s[i6] == '"' {
                                            p_links(s, i6)
                                        } else {
                                            Some((Seq::<DeskVal>::empty(), i6))
                                        };
                                        match lsr {
                                            Some((ls, i7)) => if p_lit(s, i7, seq!['}', '}'])
                                                == Some(s.len() as int) {
                                                Some((ds, active, orig, ls))
                                            } else {
                                                None
                                            },
                                            None => None,
                                        }
                                    },
                                    None => None,
                                },
                                None => None,
                            },
                            None => None,
                        },
                        None => None,
                    },
                    None => None,
                },
                None => None,
            }
        },
        None => None,
    }
}

// ---------------------------------------------------------------------------
// Inversion: parsing a printed document gives the fields back
// ---------------------------------------------------------------------------

/// Every id of every entry fits in `i32`.
pub open spec fn vals_i32(vs: Seq<DeskVal>) -> bool {
    forall|m: int| 0 <= m < vs.len() ==> -0x8000_0000 <= (#[trigger] vs[m]).0 <= 0x7fff_ffff
}

/// Parsing inverts printing for one profile.
proof fn lemma_p_desk_inv(s: Seq<char>, i: int, d: DeskVal)
    requires
        0 <= i,
        i + desk_rep(d).len() <= s.len(),
        s.subrange(i, i + desk_rep(d).len() as int) == desk_rep(d),
        -0x8000_0000 <= d.0 <= 0x7fff_ffff,
    ensures
        p_desk(s, i) == Some((d, i + desk_rep(d).len() as int)),
        desk_rep(d).len() >= 1,
{
    reveal_strlit("{\"id\":");
    reveal_strlit(",\"name\":");
    let a = lit_desk_id();
    let b = crate::text::int_rep(d.0);
    let c = lit_desk_name();
    let e = str_rep(d.1);
    let g = seq!['}'];
    assert(a.len() == 6);
    assert(c.len() == 8);
    let o1 = i + 6;
    let o2 = o1 + b.len() as int;
    let o3 = o2 + 8;
    let o4 = o3 + e.len() as int;
    let o5 = o4 + 1;
    crate::json::lemma_split_at(s, i, a + b + c + e, g);
    crate::json::lemma_split_at(s, i, a + b + c, e);
    crate::json::lemma_split_at(s, i, a + b, c);
    crate::json::lemma_split_at(s, i, a, b);
    assert(p_lit(s, i, a) == Some(o1));
    assert(s[o2] == ',') by {
        assert(s.subrange(o2, o3)[0] == s[o2]);
        assert(c[0] == ',');
    }
    assert(!crate::text::is_digit(','));
    crate::json::lemma_p_i32_inv(s, o1, d.0);
    assert(p_lit(s, o2, c) == Some(o3));
    crate::json::lemma_p_string_inv(s, o3, d.1);
    assert(s.subrange(o4, o5) =~= g);
    assert(p_lit(s, o4, g) == Some(o5));
}

/// Parsing inverts printing for a non-empty profile list, provided the
/// text right after it does not continue the list with a comma.
proof fn lemma_p_desks_inv(s: Seq<char>, i: int, ds: Seq<DeskVal>)
    requires
        0 <= i,
        ds.len() >= 1,
        vals_i32(ds),
        i + desks_rep(ds).len() <= s.len(),
        s.subrange(i, i + desks_rep(ds).len() as int) == desks_rep(ds),
        i + desks_rep(ds).len() == s.len() || s[i + desks_rep(ds).len()] != ',',
    ensures
        p_desks(s, i) == Some((ds, i + desks_rep(ds).len() as int)),
    decreases ds.len(),
{
    let rep = desks_rep(ds);
    let d = ds[0];
    let drep = desk_rep(d);
    if ds.len() == 1 {
        lemma_p_desk_inv(s, i, d);
        assert(seq![d] =~= ds);
    } else {
        let tail = ds.drop_first();
        let trep = desks_rep(tail);
        assert(rep == drep + seq![','] + trep);
        crate::json::lemma_split_at(s, i, drep + seq![','], trep);
        crate::json::lemma_split_at(s, i, drep, seq![',']);
        lemma_p_desk_inv(s, i, d);
        let j = i + drep.len() as int;
        assert(s[j] == ',') by {
            assert(s.subrange(j, j + 1)[0] == s[j]);
        }
        assert(vals_i32(tail)) by {
            assert(forall|m: int| 0 <= m < tail.len() ==> tail[m] == ds[m + 1]);
        }
        lemma_p_desks_inv(s, j + 1, tail);
        assert(seq![d] + tail =~= ds);
    }
}

/// Parsing inverts printing for one link.
proof fn lemma_p_link_inv(s: Seq<char>, i: int, l: DeskVal)
    requires
        0 <= i,
        i + link_rep(l).len() <= s.len(),
        s.subrange(i, i + link_rep(l).len() as int) == link_rep(l),
        -0x8000_0000 <= l.0 <= 0x7fff_ffff,
    ensures
        p_link(s, i) == Some((l, i + link_rep(l).len() as int)),
        link_rep(l).len() >= 1,
{
    let a = seq!['"'];
    let b = crate::text::int_rep(l.0);
    let c = seq!['"', ':'];
    let e = str_rep(l.1);
    let o1 = i + 1;
    let o2 = o1 + b.len() as int;
    let o3 = o2 + 2;
    crate::json::lemma_split_at(s, i, a + b + c, e);
    crate::json::lemma_split_at(s, i, a + b, c);
    crate::json::lemma_split_at(s, i, a, b);
    assert(s.subrange(i, o1) =~= a);
    assert(p_lit(s, i, a) == Some(o1));
    assert(s[o2] == '"') by {
        assert(s.subrange(o2, o3)[0] == s[o2]);
    }
    assert(!crate::text::is_digit('"'));
    crate::json::lemma_p_i32_inv(s, o1, l.0);
    assert(p_lit(s, o2, c) == Some(o3));
    crate::json::lemma_p_string_inv(s, o3, l.1);
}

/// Parsing inverts printing for a non-empty link list, provided the text
/// right after it does not continue the list with a comma.
proof fn lemma_p_links_inv(s: Seq<char>, i: int, ls: Seq<DeskVal>)
    requires
        0 <= i,
        ls.len() >= 1,
        vals_i32(ls),
        i + links_rep(ls).len() <= s.len(),
        s.subrange(i, i + links_rep(ls).len() as int) == links_rep(ls),
        i + links_rep(ls).len() == s.len() || s[i + links_rep(ls).len()] != ',',
    ensures
        p_links(s, i) == Some((ls, i + links_rep(ls).len() as int)),
    decreases ls.len(),
{
    let rep = links_rep(ls);
    let l = ls[0];
    let lrep = link_rep(l);
    if ls.len() == 1 {
        lemma_p_link_inv(s, i, l);
        assert(seq![l] =~= ls);
    } else {
        let tail = ls.drop_first();
        let trep = links_rep(tail);
        assert(rep == lrep + seq![','] + trep);
        crate::json::lemma_split_at(s, i, lrep + seq![','], trep);
        crate::json::lemma_split_at(s, i, lrep, seq![',']);
        lemma_p_link_inv(s, i, l);
        let j = i + lrep.len() as int;
        assert(s[j] == ',') by {
            assert(s.subrange(j, j + 1)[0] == s[j]);
        }
        assert(vals_i32(tail)) by {
            assert(forall|m: int| 0 <= m < tail.len() ==> tail[m] == ls[m + 1]);
        }
        lemma_p_links_inv(s, j + 1, tail);
        assert(seq![l] + tail =~= ls);
    }
}

/// Parsing a printed state document gives the fields back.
#[verifier::rlimit(30)]
pub proof fn lemma_config_round_trip(
    ds: Seq<DeskVal>,
    active: int,
    orig: Seq<char>,
    ls: Seq<DeskVal>,
)
    requires
        vals_i32(ds),
        vals_i32(ls),
        -0x8000_0000 <= active <= 0x7fff_ffff,
    ensures
        p_config(config_rep(ds, active, orig, ls)) == Some((ds, active, orig, ls)),
{
    reveal_strlit("{\"desktops\":[");
    reveal_strlit("],\"active_desktop_id\":");
    reveal_strlit(",\"original_desktop_path\":");
    reveal_strlit(",\"virtual_desktop_mapping\":{");
    reveal_strlit("{\"id\":");
    let s = config_rep(ds, active, orig, ls);
    let a0 = lit_cfg_open();
    let a1 = desks_rep(ds);
    let a2 = lit_cfg_active();
    let a3 = crate::text::int_rep(active);
    let a4 = lit_cfg_orig();
    let a5 = str_rep(orig);
    let a6 = lit_cfg_map();
    let a7 = links_rep(ls);
    let a8 = seq!['}', '}'];
    assert(a0.len() == 13);
    assert(a2.len() == 22);
    assert(a4.len() == 25);
    assert(a6.len() == 28);
    let i0 = 13int;
    let i1 = i0 + a1.len() as int;
    let i2 = i1 + 22;
    let i3 = i2 + a3.len() as int;
    let i4 = i3 + 25;
    let i5 = i4 + a5.len() as int;
    let i6 = i5 + 28;
    let i7 = i6 + a7.len() as int;
    assert(s.subrange(0, s.len() as int) =~= s);
    assert(s == (a0 + a1 + a2 + a3 + a4 + a5 + a6 + a7) + a8);
    crate::json::lemma_split_at(s, 0, a0 + a1 + a2 + a3 + a4 + a5 + a6 + a7, a8);
    crate::json::lemma_split_at(s, 0, a0 + a1 + a2 + a3 + a4 + a5 + a6, a7);
    crate::json::lemma_split_at(s, 0, a0 + a1 + a2 + a3 + a4 + a5, a6);
    crate::json::lemma_split_at(s, 0, a0 + a1 + a2 + a3 + a4, a5);
    crate::json::lemma_split_at(s, 0, a0 + a1 + a2 + a3, a4);
    crate::json::lemma_split_at(s, 0, a0 + a1 + a2, a3);
    crate::json::lemma_split_at(s, 0, a0 + a1, a2);
    crate::json::lemma_split_at(s, 0, a0, a1);
    assert(p_lit(s, 0, a0) == Some(i0));
    assert(s[i1] == ']') by {
        assert(s.subrange(i1, i2)[0] == s[i1]);
        assert(a2[0] == ']');
    }
    if ds.len() == 0 {
        assert(a1 =~= Seq::<char>::empty());
        assert(i1 == i0);
        assert(s[i0] != '{');
    } else {
        assert(a1 == desk_rep(ds[0]) + (if ds.len() == 1 {
            Seq::<char>::empty()
        } else {
            seq![','] + desks_rep(ds.drop_first())
        })) by {
            if ds.len() == 1 {
                assert(a1 == desk_rep(ds[0]));
                assert(desk_rep(ds[0]) + Seq::<char>::empty() =~= desk_rep(ds[0]));
            }
        }
        assert(a1[0] == '{') by {
            assert(desk_rep(ds[0])[0] == lit_desk_id()[0]);
        }
        assert(s[i0] == '{') by {
            assert(s.subrange(i0, i1)[0] == s[i0]);
        }
        assert(s[i1] != ',');
        lemma_p_desks_inv(s, i0, ds);
    }
    assert(p_lit(s, i1, a2) == Some(i2));
    assert(s[i3] == ',') by {
        assert(s.subrange(i3, i4)[0] == s[i3]);
        assert(a4[0] == ',');
    }
    assert(!crate::text::is_digit(','));
    crate::json::lemma_p_i32_inv(s, i2, active);
    assert(p_lit(s, i3, a4) == Some(i4));
    crate::json::lemma_p_string_inv(s, i4, orig);
    assert(p_lit(s, i5, a6) == Some(i6));
    assert(s[i7] == '}') by {
        assert(s.subrange(i7, i7 + 2)[0] == s[i7]);
    }
    if ls.len() == 0 {
        assert(a7 =~= Seq::<char>::empty());
        assert(i7 == i6);
        assert(s[i6] != '"');
    } else {
        assert(a7 == link_rep(ls[0]) + (if ls.len() == 1 {
            Seq::<char>::empty()
        } else {
            seq![','] + links_rep(ls.drop_first())
        })) by {
            if ls.len() == 1 {
                assert(a7 == link_rep(ls[0]));
                assert(link_rep(ls[0]) + Seq::<char>::empty() =~= link_rep(ls[0]));
            }
        }
        assert(a7[0] == '"') by {
            assert(link_rep(ls[0])[0] == '"');
        }
        assert(s[i6] == '"') by {
            assert(s.subrange(i6, i7)[0] == s[i6]);
        }
        assert(s[i7] != ',');
        lemma_p_links_inv(s, i6, ls);
    }
    assert(p_lit(s, i7, a8) == Some(s.len() as int));
}

/// Saving a state document and loading the text back reproduces every
/// field: the profile list, the active id, the original path and the
/// links.
pub proof fn lemma_config_value_round_trip(c: KimiConfig)
    ensures
        p_config(
            config_rep(
                desks_view(c.desktops@),
                c.active_desktop_id as int,
                c.original_desktop_path@,
                links_view(c.virtual_desktop_mapping@),
            ),
        ) == Some(
            (
                desks_view(c.desktops@),
                c.active_desktop_id as int,
                c.original_desktop_path@,
                links_view(c.virtual_desktop_mapping@),
            ),
        ),
{
    let ds = desks_view(c.desktops@);
    let ls = links_view(c.virtual_desktop_mapping@);
    assert(vals_i32(ds)) by {
        assert(forall|m: int|
            0 <= m < ds.len() ==> #[trigger] ds[m] == (
            c.desktops@[m].id as int,
            c.desktops@[m].name@,
            ));
    }
    assert(vals_i32(ls)) by {
        assert(forall|m: int|
            0 <= m < ls.len() ==> #[trigger] ls[m] == (
            c.virtual_desktop_mapping@[m].0 as int,
            c.virtual_desktop_mapping@[m].1@,
            ));
    }
    lemma_config_round_trip(ds, c.active_desktop_id as int, c.original_desktop_path@, ls);
}

// ---------------------------------------------------------------------------
// Executable printer
// ---------------------------------------------------------------------------

/// Appends one printed profile.
fn append_desk(out: &mut String, d: &DesktopConfig)
    ensures
        final(out)@ == old(out)@ + desk_rep((d.id as int, d.name@)),
{
    out.append("{\"id\":");
    append_i32(out, d.id);
    out.append(",\"name\":");
    append_quoted(out, d.name.as_str());
    out.append("}");
    proof {
        reveal_strlit("}");
        assert("}"@ =~= seq!['}']);
        assert(old(out)@ + lit_desk_id() + int_rep(d.id as int) + lit_desk_name() + str_rep(
            d.name@,
        ) + seq!['}'] =~= old(out)@ + desk_rep((d.id as int, d.name@)));
    }
}

/// Appends one printed link.
fn append_link(out: &mut String, l: &(i32, String))
    ensures
        final(out)@ == old(out)@ + link_rep((l.0 as int, l.1@)),
{
    out.append("\"");
    append_i32(out, l.0);
    out.append("\":");
    append_quoted(out, l.1.as_str());
    proof {
        reveal_strlit("\"");
        reveal_strlit("\":");
        assert("\""@ =~= seq!['"']);
        assert("\":"@ =~= seq!['"', ':']);
        assert(old(out)@ + seq!['"'] + int_rep(l.0 as int) + seq!['"', ':'] + str_rep(l.1@)
            =~= old(out)@ + link_rep((l.0 as int, l.1@)));
    }
}

/// Growing a profile list by one extends its printed form.
proof fn lemma_desks_rep_snoc(a: Seq<DeskVal>, d: DeskVal)
    ensures
        a.len() == 0 ==> desks_rep(a.push(d)) == desk_rep(d),
        a.len() > 0 ==> desks_rep(a.push(d)) == desks_rep(a) + seq![','] + desk_rep(d),
    decreases a.len(),
{
    if a.len() == 0 {
        assert(a.push(d)[0] == d);
    } else if a.len() == 1 {
        assert(a.push(d)[0] == a[0]);
        assert(a.push(d).drop_first() =~= seq![d]);
        assert(desks_rep(seq![d]) == desk_rep(d));
        assert(desk_rep(a[0]) + seq![','] + desk_rep(d) =~= desk_rep(a[0]) + (seq![','] + desk_rep(
            d,
        )));
    } else {
        lemma_desks_rep_snoc(a.drop_first(), d);
        assert(a.push(d)[0] == a[0]);
        assert(a.push(d).drop_first() =~= a.drop_first().push(d));
        assert(desk_rep(a[0]) + seq![','] + (desks_rep(a.drop_first()) + seq![','] + desk_rep(d))
            =~= (desk_rep(a[0]) + seq![','] + desks_rep(a.drop_first())) + seq![','] + desk_rep(
            d,
        ));
    }
}

/// Growing a link list by one extends its printed form.
proof fn lemma_links_rep_snoc(a: Seq<DeskVal>, l: DeskVal)
    ensures
        a.len() == 0 ==> links_rep(a.push(l)) == link_rep(l),
        a.len() > 0 ==> links_rep(a.push(l)) == links_rep(a) + seq![','] + link_rep(l),
    decreases a.len(),
{
    if a.len() == 0 {
        assert(a.push(l)[0] == l);
    } else if a.len() == 1 {
        assert(a.push(l)[0] == a[0]);
        assert(a.push(l).drop_first() =~= seq![l]);
        assert(links_rep(seq![l]) == link_rep(l));
        assert(link_rep(a[0]) + seq![','] + link_rep(l) =~= link_rep(a[0]) + (seq![','] + link_rep(
            l,
        )));
    } else {
        lemma_links_rep_snoc(a.drop_first(), l);
        assert(a.push(l)[0] == a[0]);
        assert(a.push(l).drop_first() =~= a.drop_first().push(l));
        assert(link_rep(a[0]) + seq![','] + (links_rep(a.drop_first()) + seq![','] + link_rep(l))
            =~= (link_rep(a[0]) + seq![','] + links_rep(a.drop_first())) + seq![','] + link_rep(
            l,
        ));
    }
}

/// Prints the state as its canonical document text.
pub fn save_config(c: &KimiConfig) -> (r: String)
    ensures
        r@ == config_rep(
            desks_view(c.desktops@),
            c.active_desktop_id as int,
            c.original_desktop_path@,
            links_view(c.virtual_desktop_mapping@),
        ),
{
    let ghost dv = desks_view(c.desktops@);
    let ghost lv = links_view(c.virtual_desktop_mapping@);
    let mut out = String::from_str("{\"desktops\":[");
    let n = c.desktops.len();
    let mut p: usize = 0;
    proof {
        assert(dv.take(0) =~= Seq::<DeskVal>::empty());
        assert(out@ =~= lit_cfg_open() + desks_rep(dv.take(0)));
    }
    while p < n
        invariant
            p <= n,
            n == c.desktops@.len(),
            dv == desks_view(c.desktops@),
            out@ == lit_cfg_open() + desks_rep(dv.take(p as int)),
        decreases n - p,
    {
        if p > 0 {
            out.append(",");
            proof {
                reveal_strlit(",");
                assert(","@ =~= seq![',']);
            }
        }
        append_desk(&mut out, &c.desktops[p]);
        proof {
            lemma_desks_rep_snoc(dv.take(p as int), dv[p as int]);
            assert(dv.take(p as int + 1) =~= dv.take(p as int).push(dv[p as int]));
            if p > 0 {
                assert(lit_cfg_open() + desks_rep(dv.take(p as int)) + seq![','] + desk_rep(
                    dv[p as int],
                ) =~= lit_cfg_open() + desks_rep(dv.take(p as int + 1)));
            } else {
                assert(desks_rep(dv.take(0)) =~= Seq::<char>::empty());
                assert(lit_cfg_open() + Seq::<char>::empty() + desk_rep(dv[0]) =~= lit_cfg_open()
                    + desks_rep(dv.take(1)));
            }
        }
        p = p + 1;
    }
    out.append("],\"active_desktop_id\":");
    append_i32(&mut out, c.active_desktop_id);
    out.append(",\"original_desktop_path\":");
    append_quoted(&mut out, c.original_desktop_path.as_str());
    out.append(",\"virtual_desktop_mapping\":{");
    let ghost mid = lit_cfg_open() + desks_rep(dv) + lit_cfg_active() + int_rep(
        c.active_desktop_id as int,
    ) + lit_cfg_orig() + str_rep(c.original_desktop_path@) + lit_cfg_map();
    proof {
        assert(dv.take(n as int) =~= dv);
        assert(out@ =~= mid + links_rep(lv.take(0))) by {
            assert(lv.take(0) =~= Seq::<DeskVal>::empty());
            assert(links_rep(lv.take(0)) =~= Seq::<char>::empty());
        }
    }
    let m = c.virtual_desktop_mapping.len();
    let mut q: usize = 0;
    while q < m
        invariant
            q <= m,
            m == c.virtual_desktop_mapping@.len(),
            lv == links_view(c.virtual_desktop_mapping@),
            out@ == mid + links_rep(lv.take(q as int)),
        decreases m - q,
    {
        if q > 0 {
            out.append(",");
            proof {
                reveal_strlit(",");
                assert(","@ =~= seq![',']);
            }
        }
        append_link(&mut out, &c.virtual_desktop_mapping[q]);
        proof {
            lemma_links_rep_snoc(lv.take(q as int), lv[q as int]);
            assert(lv.take(q as int + 1) =~= lv.take(q as int).push(lv[q as int]));
            if q > 0 {
                assert(mid + links_rep(lv.take(q as int)) + seq![','] + link_rep(lv[q as int]) =~=
                    mid + links_rep(lv.take(q as int + 1)));
            } else {
                assert(links_rep(lv.take(0)) =~= Seq::<char>::empty());
                assert(mid + Seq::<char>::empty() + link_rep(lv[0]) =~= mid + links_rep(
                    lv.take(1),
                ));
            }
        }
        q = q + 1;
    }
    out.append("}}");
    proof {
        reveal_strlit("{\"desktops\":[");
        reveal_strlit("],\"active_desktop_id\":");
        reveal_strlit(",\"original_desktop_path\":");
        reveal_strlit(",\"virtual_desktop_mapping\":{");
        reveal_strlit("}}");
        assert("}}"@ =~= seq!['}', '}']);
        assert(lv.take(m as int) =~= lv);
        assert(mid + links_rep(lv) + seq!['}', '}'] =~= config_rep(
            dv,
            c.active_desktop_id as int,
            c.original_desktop_path@,
            lv,
        ));
    }
    out
}

// ---------------------------------------------------------------------------
// Executable parser
// ---------------------------------------------------------------------------

/// Reads one profile, following `p_desk`.
fn parse_desk(s: &str, i: usize) -> (r: Option<(DesktopConfig, usize)>)
    requires
        i <= s@.len(),
    ensures
        match r {
            Some((d, j)) => p_desk(s@, i as int) == Some(((d.id as int, d.name@), j as int)) && i
                < j <= s@.len(),
            None => p_desk(s@, i as int) is None,
        },
{
    proof {
        reveal_strlit("{\"id\":");
        reveal_strlit(",\"name\":");
        reveal_strlit("}");
        assert("}"@ =~= seq!['}']);
    }
    let j1 = match parse_lit(s, i, "{\"id\":") {
        Some(v) => v,
        None => {
            return None;
        },
    };
    let (id, j2) = match parse_i32(s, j1) {
        Some(v) => v,
        None => {
            return None;
        },
    };
    let j3 = match parse_lit(s, j2, ",\"name\":") {
        Some(v) => v,
        None => {
            return None;
        },
    };
    let (name, j4) = match parse_string(s, j3) {
        Some(v) => v,
        None => {
            return None;
        },
    };
    let j5 = match parse_lit(s, j4, "}") {
        Some(v) => v,
        None => {
            return None;
        },
    };
    Some((DesktopConfig { id, name }, j5))
}

/// Reads one link, following `p_link`.
fn parse_link(s: &str, i: usize) -> (r: Option<((i32, String), usize)>)
    requires
        i <= s@.len(),
    ensures
        match r {
            Some((l, j)) => p_link(s@, i as int) == Some(((l.0 as int, l.1@), j as int)) && i < j
                <= s@.len(),
            None => p_link(s@, i as int) is None,
        },
{
    proof {
        reveal_strlit("\"");
        reveal_strlit("\":");
        assert("\""@ =~= seq!['"']);
        assert("\":"@ =~= seq!['"', ':']);
    }
    let j1 = match parse_lit(s, i, "\"") {
        Some(v) => v,
        None => {
            return None;
        },
    };
    let (id, j2) = match parse_i32(s, j1) {
        Some(v) => v,
        None => {
            return None;
        },
    };
    let j3 = match parse_lit(s, j2, "\":") {
        Some(v) => v,
        None => {
            return None;
        },
    };
    let (slot, j4) = match parse_string(s, j3) {
        Some(v) => v,
        None => {
            return None;
        },
    };
    Some(((id, slot), j4))
}

/// Reads one or more profiles, following `p_desks`.
fn parse_desks(s: &str, i: usize) -> (r: Option<(Vec<DesktopConfig>, usize)>)
    requires
        i <= s@.len(),
    ensures
        match r {
            Some((v, j)) => p_desks(s@, i as int) == Some((desks_view(v@), j as int)) && i < j
                <= s@.len(),
            None => p_desks(s@, i as int) is None,
        },
{
    let n = s.unicode_len();
    let mut out: Vec<DesktopConfig> = Vec::new();
    let mut pos: usize = i;
    loop
        invariant
            i <= pos <= n,
            n == s@.len(),
            match p_desks(s@, pos as int) {
                Some((ds, j)) => p_desks(s@, i as int) == Some((desks_view(out@) + ds, j)),
                None => p_desks(s@, i as int) is None,
            },
        decreases n - pos,
    {
        let ghost acc0 = desks_view(out@);
        let (d, j) = match parse_desk(s, pos) {
            Some(v) => v,
            None => {
                return None;
            },
        };
        out.push(d);
        proof {
            assert(desks_view(out@) =~= acc0.push((d.id as int, d.name@)));
        }
        if j < n && s.get_char(j) == ',' {
            proof {
                match p_desks(s@, j as int + 1) {
                    Some((ds, k)) => {
                        assert(acc0.push((d.id as int, d.name@)) + ds =~= acc0 + (seq![
                            (d.id as int, d.name@),
                        ] + ds));
                    },
                    None => {},
                }
            }
            pos = j + 1;
        } else {
            proof {
                assert(p_desks(s@, pos as int) == Some((seq![(d.id as int, d.name@)], j as int)));
                assert(acc0.push((d.id as int, d.name@)) =~= acc0 + seq![(d.id as int, d.name@)]);
            }
            return Some((out, j));
        }
    }
}

/// Reads one or more links, following `p_links`.
fn parse_links(s: &str, i: usize) -> (r: Option<(Vec<(i32, String)>, usize)>)
    requires
        i <= s@.len(),
    ensures
        match r {
            Some((v, j)) => p_links(s@, i as int) == Some((links_view(v@), j as int)) && i < j
                <= s@.len(),
            None => p_links(s@, i as int) is None,
        },
{
    let n = s.unicode_len();
    let mut out: Vec<(i32, String)> = Vec::new();
    let mut pos: usize = i;
    loop
        invariant
            i <= pos <= n,
            n == s@.len(),
            match p_links(s@, pos as int) {
                Some((ls, j)) => p_links(s@, i as int) == Some((links_view(out@) + ls, j)),
                None => p_links(s@, i as int) is None,
            },
        decreases n - pos,
    {
        let ghost acc0 = links_view(out@);
        let (l, j) = match parse_link(s, pos) {
            Some(v) => v,
            None => {
                return None;
            },
        };
        let ghost lval = (l.0 as int, l.1@);
        out.push(l);
        proof {
            assert(links_view(out@) =~= acc0.push(lval));
        }
        if j < n && s.get_char(j) == ',' {
            proof {
                match p_links(s@, j as int + 1) {
                    Some((ls, k)) => {
                        assert(acc0.push(lval) + ls =~= acc0 + (seq![lval] + ls));
                    },
                    None => {},
                }
            }
            pos = j + 1;
        } else {
            proof {
                assert(p_links(s@, pos as int) == Some((seq![lval], j as int)));
                assert(acc0.push(lval) =~= acc0 + seq![lval]);
            }
            return Some((out, j));
        }
    }
}

/// Reads a whole state document, following `p_config`.
pub fn parse_config(s: &str) -> (r: Option<KimiConfig>)
    ensures
        match r {
            Some(c) => p_config(s@) == Some(
                (
                    desks_view(c.desktops@),
                    c.active_desktop_id as int,
                    c.original_desktop_path@,
                    links_view(c.virtual_desktop_mapping@),
                ),
            ),
            None => p_config(s@) is None,
        },
{
    let n = s.unicode_len();
    proof {
        reveal_strlit("{\"desktops\":[");
        reveal_strlit("],\"active_desktop_id\":");
        reveal_strlit(",\"original_desktop_path\":");
        reveal_strlit(",\"virtual_desktop_mapping\":{");
        reveal_strlit("}}");
        assert("}}"@ =~= seq!['}', '}']);
    }
    let i0 = match parse_lit(s, 0, "{\"desktops\":[") {
        Some(v) => v,
        None => {
            return None;
        },
    };
    let mut desktops: Vec<DesktopConfig> = Vec::new();
    let mut i1: usize = i0;
    if i0 < n && s.get_char(i0) == '{' {
        let (v, j) = match parse_desks(s, i0) {
            Some(v) => v,
            None => {
                return None;
            },
        };
        desktops = v;
        i1 = j;
    } else {
        proof {
            assert(desks_view(desktops@) =~= Seq::<DeskVal>::empty());
        }
    }
    let i2 = match parse_lit(s, i1, "],\"active_desktop_id\":") {
        Some(v) => v,
        None => {
            return None;
        },
    };
    let (active, i3) = match parse_i32(s, i2) {
        Some(v) => v,
        None => {
            return None;
        },
    };
    let i4 = match parse_lit(s, i3, ",\"original_desktop_path\":") {
        Some(v) => v,
        None => {
            return None;
        },
    };
    let (orig, i5) = match parse_string(s, i4) {
        Some(v) => v,
        None => {
            return None;
        },
    };
    let i6 = match parse_lit(s, i5, ",\"virtual_desktop_mapping\":{") {
        Some(v) => v,
        None => {
            return None;
        },
    };
    let mut mapping: Vec<(i32, String)> = Vec::new();
    let mut i7: usize = i6;
    if i6 < n && s.get_char(i6) == '"' {
        let (v, j) = match parse_links(s, i6) {
            Some(v) => v,
            None => {
                return None;
            },
        };
        mapping = v;
        i7 = j;
    } else {
        proof {
            assert(links_view(mapping@) =~= Seq::<DeskVal>::empty());
        }
    }
    let fin = match parse_lit(s, i7, "}}") {
        Some(v) => v,
        None => {
            return None;
        },
    };
    if fin != n {
        return None;
    }
    Some(
        KimiConfig {
            desktops,
            active_desktop_id: active,
            original_desktop_path: orig,
            virtual_desktop_mapping: mapping,
        },
    )
}

/// Whether a state document satisfies the invariant.
pub fn config_is_wf(c: &KimiConfig) -> (r: bool)
    ensures
        r == config_wf(*c),
{
    let n = c.desktops.len();
    let mut p: usize = 0;
    while p < n
        invariant
            p <= n,
            n == c.desktops@.len(),
            forall|a: int, b: int| 0 <= a < b < p ==> c.desktops@[a].id != c.desktops@[b].id,
            forall|a: int| 0 <= a < p ==> (#[trigger] c.desktops@[a]).id >= 1,
        decreases n - p,
    {
        if c.desktops[p].id < 1 {
            return false;
        }
        let mut q: usize = 0;
        while q < p
            invariant
                q <= p < n,
                n == c.desktops@.len(),
                forall|a: int| 0 <= a < q ==> c.desktops@[a].id != c.desktops@[p as int].id,
            decreases p - q,
        {
            if c.desktops[q].id == c.desktops[p].id {
                return false;
            }
            q = q + 1;
        }
        p = p + 1;
    }
    if c.active_desktop_id != 0 && !crate::config::has_desktop(c, c.active_desktop_id) {
        return false;
    }
    let m = c.virtual_desktop_mapping.len();
    let mut u: usize = 0;
    while u < m
        invariant
            u <= m,
            m == c.virtual_desktop_mapping@.len(),
            forall|a: int, b: int|
                0 <= a < b < u ==> c.virtual_desktop_mapping@[a].0 != c.virtual_desktop_mapping@[b].0,
        decreases m - u,
    {
        let mut v: usize = 0;
        while v < u
            invariant
                v <= u < m,
                m == c.virtual_desktop_mapping@.len(),
                forall|a: int|
                    0 <= a < v ==> c.virtual_desktop_mapping@[a].0
                        != c.virtual_desktop_mapping@[u as int].0,
            decreases u - v,
        {
            if c.virtual_desktop_mapping[v].0 == c.virtual_desktop_mapping[u].0 {
                return false;
            }
            v = v + 1;
        }
        u = u + 1;
    }
    true
}

/// What the invariant asks of a parsed document.
pub open spec fn doc_wf(ds: Seq<DeskVal>, active: int, ls: Seq<DeskVal>) -> bool {
    &&& forall|p: int, q: int| 0 <= p < q < ds.len() ==> ds[p].0 != ds[q].0
    &&& forall|p: int| 0 <= p < ds.len() ==> (#[trigger] ds[p]).0 >= 1
    &&& (active == 0 || exists|p: int| 0 <= p < ds.len() && (#[trigger] ds[p]).0 == active)
    &&& forall|p: int, q: int| 0 <= p < q < ls.len() ==> ls[p].0 != ls[q].0
}

/// Reads the state from the file's content.  A missing, unreadable or
/// ill-formed document gives a fresh default state carrying the supplied
/// original desktop path; the result always satisfies the invariant.
pub fn load_config(content: Option<&str>, default_original: &str) -> (r: KimiConfig)
    ensures
        config_wf(r),
        ({
            let fallback = r.desktops@.len() == 0 && r.active_desktop_id == 0
                && r.original_desktop_path@ == default_original@
                && r.virtual_desktop_mapping@.len() == 0;
            match content {
                Some(s) => match p_config(s@) {
                    Some((ds, active, orig, ls)) => if doc_wf(ds, active, ls) {
                        desks_view(r.desktops@) == ds && r.active_desktop_id as int == active
                            && r.original_desktop_path@ == orig && links_view(
                            r.virtual_desktop_mapping@,
                        ) == ls
                    } else {
                        fallback
                    },
                    None => fallback,
                },
                None => fallback,
            }
        }),
{
    let parsed: Option<KimiConfig> = match content {
        Some(s) => parse_config(s),
        None => None,
    };
    match parsed {
        Some(c) => {
            proof {
                let ds = desks_view(c.desktops@);
                let ls = links_view(c.virtual_desktop_mapping@);
                let active = c.active_desktop_id as int;
                assert(forall|p: int|
                    0 <= p < ds.len() ==> #[trigger] ds[p] == (
                    c.desktops@[p].id as int,
                    c.desktops@[p].name@,
                    ));
                assert(forall|p: int|
                    0 <= p < ls.len() ==> #[trigger] ls[p] == (
                    c.virtual_desktop_mapping@[p].0 as int,
                    c.virtual_desktop_mapping@[p].1@,
                    ));
                if config_wf(c) {
                    assert(doc_wf(ds, active, ls)) by {
                        if active != 0 {
                            let w = choose|w: int|
                                0 <= w < c.desktops@.len() && c.desktops@[w].id == active;
                            assert(ds[w].0 == active);
                        }
                    }
                } else {
                    assert(!doc_wf(ds, active, ls)) by {
                        if doc_wf(ds, active, ls) {
                            assert forall|a: int, b: int|
                                0 <= a < b < c.desktops@.len() implies c.desktops@[a].id
                                != c.desktops@[b].id by {
                                assert(ds[a].0 != ds[b].0);
                            }
                            assert forall|a: int, b: int|
                                0 <= a < b < c.virtual_desktop_mapping@.len() implies
                                c.virtual_desktop_mapping@[a].0
                                != c.virtual_desktop_mapping@[b].0 by {
                                assert(ls[a].0 != ls[b].0);
                            }
                            assert forall|p: int|
                                0 <= p < c.desktops@.len() implies (#[trigger] c.desktops@[p]).id
                                >= 1 by {
                                assert(ds[p].0 >= 1);
                            }
                            assert(crate::config::ids_unique(c.desktops@));
                            assert(crate::config::keys_unique(c.virtual_desktop_mapping@));
                            if active != 0 {
                                let w = choose|w: int|
                                    0 <= w < ds.len() && (#[trigger] ds[w]).0 == active;
                                assert(c.desktops@[w].id == active);
                                assert(crate::config::has_id(c.desktops@, active));
                            }
                            assert(config_wf(c));
                        }
                    }
                }
            }
            if config_is_wf(&c) {
                return c;
            }
        },
        None => {},
    }
    KimiConfig {
        desktops: Vec::new(),
        active_desktop_id: 0,
        original_desktop_path: String::from_str(default_original),
        virtual_desktop_mapping: Vec::new(),
    }
}

} // verus!
