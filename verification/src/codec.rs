//! The persisted layout document: `{"icons":{"name":{"x":X,"y":Y},...}}`.
//! Printing is canonical and parsing inverts it, which is proved as
//! `lemma_layout_round_trip`.

use vstd::prelude::*;
use vstd::string::*;
use crate::json::{
    lemma_p_i32_inv, lemma_p_string_inv, lemma_split_at, p_i32, p_lit, p_string, parse_i32,
    parse_lit, parse_string, append_quoted, str_rep,
};
use crate::layout::{DesktopIconsLayout, IconEntry, IconPosition};
use crate::text::{append_i32, int_rep};

verus! {

/// One parsed entry: name, x, y.
pub type LayoutEntry = (Seq<char>, int, int);

/// `{"icons":{`
pub open spec fn lit_layout_open() -> Seq<char> {
    seq!['{', '"', 'i', 'c', 'o', 'n', 's', '"', ':', '{']
}

/// `:{"x":`
pub open spec fn lit_x() -> Seq<char> {
    seq![':', '{', '"', 'x', '"', ':']
}

/// `,"y":`
pub open spec fn lit_y() -> Seq<char> {
    seq![',', '"', 'y', '"', ':']
}

/// Printed form of one entry.
pub open spec fn entry_rep(e: LayoutEntry) -> Seq<char> {
    str_rep(e.0) + lit_x() + int_rep(e.1) + lit_y() + int_rep(e.2) + seq!['}']
}

/// Printed form of the entries after the first, each preceded by a comma.
pub open spec fn rest_rep(es: Seq<LayoutEntry>) -> Seq<char>
    decreases es.len(),
{
    if es.len() == 0 {
        Seq::<char>::empty()
    } else {
        seq![','] + entry_rep(es[0]) + rest_rep(es.drop_first())
    }
}

/// Printed form of an entry list, comma separated.
pub open spec fn entries_rep(es: Seq<LayoutEntry>) -> Seq<char> {
    if es.len() == 0 {
        Seq::<char>::empty()
    } else {
        entry_rep(es[0]) + rest_rep(es.drop_first())
    }
}

/// Printed form of a whole layout document.
pub open spec fn layout_rep(es: Seq<LayoutEntry>) -> Seq<char> {
    lit_layout_open() + entries_rep(es) + seq!['}', '}']
}

/// Both coordinates of every entry fit in `i32`.
pub open spec fn entries_i32(es: Seq<LayoutEntry>) -> bool {
    forall|m: int|
        0 <= m < es.len() ==> -0x8000_0000 <= (#[trigger] es[m]).1 <= 0x7fff_ffff
            && -0x8000_0000 <= es[m].2 <= 0x7fff_ffff
}

// ---------------------------------------------------------------------------
// Spec parser
// ---------------------------------------------------------------------------

/// One entry at position `i`.
pub open spec fn p_entry(s: Seq<char>, i: int) -> Option<(LayoutEntry, int)> {
    match p_string(s, i) {
        Some((name, j1)) => match p_lit(s, j1, lit_x()) {
            Some(j2) => match p_i32(s, j2) {
                Some((x, j3)) => match p_lit(s, j3, lit_y()) {
                    Some(j4) => match p_i32(s, j4) {
                        Some((y, j5)) => match p_lit(s, j5, seq!['}']) {
                            Some(j6) => Some(((name, x, y), j6)),
                            None => None,
                        },
                        None => None,
                    },
                    None => None,
                },
                None => None,
            },
            None => None,
        },
        None => None,
    }
}

/// A comma-separated list of one or more entries starting at `i`.
pub open spec fn p_entries(s: Seq<char>, i: int) -> Option<(Seq<LayoutEntry>, int)>
    decreases s.len() - i,
{
    match p_entry(s, i) {
        Some((e, j)) => if i < j && j < s.len() && s[j] == ',' {
            match p_entries(s, j + 1) {
                Some((es, k)) => Some((seq![e] + es, k)),
                None => None,
            }
        } else if i < j {
            Some((seq![e], j))
        } else {
            None
        },
        None => None,
    }
}

/// A whole layout document.
pub open spec fn p_layout(s: Seq<char>) -> Option<Seq<LayoutEntry>> {
    match p_lit(s, 0, lit_layout_open()) {
        Some(i) => if i < s.len() && s[i] == '"' {
            match p_entries(s, i) {
                Some((es, j)) => if p_lit(s, j, seq!['}', '}']) == Some(s.len() as int) {
                    Some(es)
                } else {
                    None
                },
                None => None,
            }
        } else {
            if p_lit(s, i, seq!['}', '}']) == Some(s.len() as int) {
                Some(Seq::<LayoutEntry>::empty())
            } else {
                None
            }
        },
        None => None,
    }
}

// ---------------------------------------------------------------------------
// Inversion: parsing a printed entry list gives the list back
// ---------------------------------------------------------------------------

/// Parsing inverts printing for one entry.
pub proof fn lemma_p_entry_inv(s: Seq<char>, i: int, e: LayoutEntry)
    requires
        0 <= i,
        i + entry_rep(e).len() <= s.len(),
        s.subrange(i, i + entry_rep(e).len() as int) == entry_rep(e),
        -0x8000_0000 <= e.1 <= 0x7fff_ffff,
        -0x8000_0000 <= e.2 <= 0x7fff_ffff,
    ensures
        p_entry(s, i) == Some((e, i + entry_rep(e).len() as int)),
        entry_rep(e).len() >= 1,
{
    let a = str_rep(e.0);
    let b = lit_x();
    let c = int_rep(e.1);
    let d = lit_y();
    let f = int_rep(e.2);
    let g = seq!['}'];
    let o1 = i + a.len() as int;
    let o2 = o1 + 6;
    let o3 = o2 + c.len() as int;
    let o4 = o3 + 5;
    let o5 = o4 + f.len() as int;
    let o6 = o5 + 1;
    lemma_split_at(s, i, a + b + c + d + f, g);
    lemma_split_at(s, i, a + b + c + d, f);
    lemma_split_at(s, i, a + b + c, d);
    lemma_split_at(s, i, a + b, c);
    lemma_split_at(s, i, a, b);
    lemma_p_string_inv(s, i, e.0);
    assert(p_lit(s, o1, b) == Some(o2));
    assert(s[o3] == ',') by {
        assert(s.subrange(o3, o4)[0] == s[o3]);
    }
    assert(!crate::text::is_digit(','));
    lemma_p_i32_inv(s, o2, e.1);
    assert(p_lit(s, o3, d) == Some(o4));
    assert(s[o5] == '}') by {
        assert(s.subrange(o5, o6)[0] == s[o5]);
    }
    assert(!crate::text::is_digit('}'));
    lemma_p_i32_inv(s, o4, e.2);
    assert(p_lit(s, o5, g) == Some(o6));
}

/// Parsing inverts printing for a non-empty entry list, provided the text
/// right after the list does not continue it with a comma.
pub proof fn lemma_p_entries_inv(s: Seq<char>, i: int, es: Seq<LayoutEntry>)
    requires
        0 <= i,
        es.len() >= 1,
        entries_i32(es),
        i + entries_rep(es).len() <= s.len(),
        s.subrange(i, i + entries_rep(es).len() as int) == entries_rep(es),
        i + entries_rep(es).len() == s.len() || s[i + entries_rep(es).len()] != ',',
    ensures
        p_entries(s, i) == Some((es, i + entries_rep(es).len() as int)),
    decreases es.len(),
{
    let rep = entries_rep(es);
    let e = es[0];
    let erep = entry_rep(e);
    if es.len() == 1 {
        assert(rep =~= erep) by {
            assert(rest_rep(es.drop_first()) =~= Seq::<char>::empty());
            assert(erep + Seq::<char>::empty() =~= erep);
        }
        lemma_p_entry_inv(s, i, e);
        assert(seq![e] =~= es);
    } else {
        let tail = es.drop_first();
        let trep = entries_rep(tail);
        assert(rest_rep(tail) =~= seq![','] + trep) by {
            assert(rest_rep(tail) == seq![','] + entry_rep(tail[0]) + rest_rep(tail.drop_first()));
            assert(seq![','] + entry_rep(tail[0]) + rest_rep(tail.drop_first()) =~= seq![','] + (
            entry_rep(tail[0]) + rest_rep(tail.drop_first())));
        }
        assert(rep =~= erep + seq![','] + trep) by {
            assert(rep == erep + rest_rep(tail));
        }
        let j = i + erep.len() as int;
        assert(s.subrange(i, i + rep.len() as int) == erep + seq![','] + trep);
        lemma_split_at(s, i, erep + seq![','], trep);
        lemma_split_at(s, i, erep, seq![',']);
        lemma_p_entry_inv(s, i, e);
        assert(s[j] == ',') by {
            assert(s.subrange(j, j + 1)[0] == s[j]);
        }
        assert(entries_i32(tail)) by {
            assert(forall|m: int| 0 <= m < tail.len() ==> tail[m] == es[m + 1]);
        }
        lemma_p_entries_inv(s, j + 1, tail);
        assert(seq![e] + tail =~= es);
        assert(j + 1 + trep.len() == i + rep.len());
    }
}

/// Parsing a printed layout document gives the entry list back.
pub proof fn lemma_layout_round_trip(es: Seq<LayoutEntry>)
    requires
        entries_i32(es),
    ensures
        p_layout(layout_rep(es)) == Some(es),
{
    let s = layout_rep(es);
    let open = lit_layout_open();
    let mid = entries_rep(es);
    let shut = seq!['}', '}'];
    let j = 10 + mid.len() as int;
    assert(s.subrange(0, s.len() as int) =~= s);
    assert(s == (open + mid) + shut);
    lemma_split_at(s, 0, open + mid, shut);
    lemma_split_at(s, 0, open, mid);
    assert(p_lit(s, 0, open) == Some(10int));
    assert(s[j] == '}') by {
        assert(s.subrange(j, j + 2)[0] == s[j]);
    }
    assert(p_lit(s, j, shut) == Some(j + 2));
    if es.len() == 0 {
        assert(s.len() == 12);
        assert(s[10] == '}');
    } else {
        let erep = entry_rep(es[0]);
        assert(mid == erep + rest_rep(es.drop_first()));
        assert(erep[0] == '"') by {
            assert(str_rep(es[0].0)[0] == '"');
        }
        assert(s[10] == '"') by {
            assert(s.subrange(10, j)[0] == s[10]);
        }
        lemma_p_entries_inv(s, 10, es);
    }
}

/// Writing a layout and reading the text back reproduces the same
/// name-to-position entries.
pub proof fn lemma_layout_value_round_trip(l: DesktopIconsLayout)
    ensures
        p_layout(layout_rep(l@)) == Some(l@),
{
    assert(entries_i32(l@)) by {
        assert(forall|m: int|
            0 <= m < l@.len() ==> #[trigger] l@[m] == (l.icons@[m].name@, l.icons@[m].pos.x as int, l.icons@[m].pos.y as int));
    }
    lemma_layout_round_trip(l@);
}

// ---------------------------------------------------------------------------
// Executable printer
// ---------------------------------------------------------------------------

/// Appends one printed entry.
fn append_entry(out: &mut String, e: &IconEntry)
    ensures
        final(out)@ == old(out)@ + entry_rep(e@),
{
    append_quoted(out, e.name.as_str());
    out.append(":{\"x\":");
    append_i32(out, e.pos.x);
    out.append(",\"y\":");
    append_i32(out, e.pos.y);
    out.append("}");
    proof {
        reveal_strlit(":{\"x\":");
        reveal_strlit(",\"y\":");
        reveal_strlit("}");
        assert(":{\"x\":"@ =~= lit_x());
        assert(",\"y\":"@ =~= lit_y());
        assert("}"@ =~= seq!['}']);
        assert(old(out)@ + str_rep(e.name@) + lit_x() + int_rep(e.pos.x as int) + lit_y() + int_rep(
            e.pos.y as int,
        ) + seq!['}'] =~= old(out)@ + entry_rep(e@));
    }
}

/// Growing the list by one entry extends its printed form.
proof fn lemma_rest_rep_snoc(a: Seq<LayoutEntry>, e: LayoutEntry)
    ensures
        rest_rep(a.push(e)) == rest_rep(a) + seq![','] + entry_rep(e),
    decreases a.len(),
{
    if a.len() == 0 {
        assert(a.push(e)[0] == e);
        assert(a.push(e).drop_first() =~= Seq::<LayoutEntry>::empty());
        assert(rest_rep(a.push(e)) == seq![','] + entry_rep(e) + rest_rep(
            Seq::<LayoutEntry>::empty(),
        ));
        assert(seq![','] + entry_rep(e) + Seq::<char>::empty() =~= Seq::<char>::empty() + seq![',']
            + entry_rep(e));
    } else {
        lemma_rest_rep_snoc(a.drop_first(), e);
        assert(a.push(e)[0] == a[0]);
        assert(a.push(e).drop_first() =~= a.drop_first().push(e));
        assert(seq![','] + entry_rep(a[0]) + (rest_rep(a.drop_first()) + seq![','] + entry_rep(e))
            =~= (seq![','] + entry_rep(a[0]) + rest_rep(a.drop_first())) + seq![','] + entry_rep(
            e,
        ));
    }
}

/// Same, for the full list form.
proof fn lemma_entries_rep_snoc(a: Seq<LayoutEntry>, e: LayoutEntry)
    ensures
        a.len() == 0 ==> entries_rep(a.push(e)) == entry_rep(e),
        a.len() > 0 ==> entries_rep(a.push(e)) == entries_rep(a) + seq![','] + entry_rep(e),
{
    if a.len() == 0 {
        assert(a.push(e)[0] == e);
        assert(a.push(e).drop_first() =~= Seq::<LayoutEntry>::empty());
        assert(entry_rep(e) + Seq::<char>::empty() =~= entry_rep(e));
    } else {
        lemma_rest_rep_snoc(a.drop_first(), e);
        assert(a.push(e)[0] == a[0]);
        assert(a.push(e).drop_first() =~= a.drop_first().push(e));
        assert(entry_rep(a[0]) + (rest_rep(a.drop_first()) + seq![','] + entry_rep(e)) =~= (
        entry_rep(a[0]) + rest_rep(a.drop_first())) + seq![','] + entry_rep(e));
    }
}

/// Prints a layout as its canonical document text.
pub fn save_icon_positions(l: &DesktopIconsLayout) -> (r: String)
    ensures
        r@ == layout_rep(l@),
{
    let mut out = String::new();
    out.append("{\"icons\":{");
    proof {
        reveal_strlit("{\"icons\":{");
        assert("{\"icons\":{"@ =~= lit_layout_open());
        assert(out@ =~= lit_layout_open() + entries_rep(l@.take(0))) by {
            assert(l@.take(0) =~= Seq::<LayoutEntry>::empty());
            assert(lit_layout_open() + Seq::<char>::empty() =~= lit_layout_open());
        }
    }
    let n = l.icons.len();
    let mut idx: usize = 0;
    while idx < n
        invariant
            idx <= n,
            n == l.icons.len(),
            out@ == lit_layout_open() + entries_rep(l@.take(idx as int)),
        decreases n - idx,
    {
        let ghost prefix = l@.take(idx as int);
        if idx > 0 {
            out.append(",");
            proof {
                reveal_strlit(",");
                assert(","@ =~= seq![',']);
            }
        }
        append_entry(&mut out, &l.icons[idx]);
        proof {
            lemma_entries_rep_snoc(prefix, l@[idx as int]);
            assert(l@.take(idx as int + 1) =~= prefix.push(l@[idx as int]));
            if idx > 0 {
                assert(lit_layout_open() + entries_rep(prefix) + seq![','] + entry_rep(
                    l@[idx as int],
                ) =~= lit_layout_open() + entries_rep(l@.take(idx as int + 1)));
            } else {
                assert(prefix.len() == 0);
                assert(entries_rep(prefix) =~= Seq::<char>::empty());
                assert(lit_layout_open() + Seq::<char>::empty() + entry_rep(l@[idx as int]) =~=
                    lit_layout_open() + entries_rep(l@.take(idx as int + 1)));
            }
        }
        idx = idx + 1;
    }
    out.append("}}");
    proof {
        reveal_strlit("}}");
        assert("}}"@ =~= seq!['}', '}']);
        assert(l@.take(n as int) =~= l@);
        assert(lit_layout_open() + entries_rep(l@) + seq!['}', '}'] =~= layout_rep(l@));
    }
    out
}

// ---------------------------------------------------------------------------
// Executable parser
// ---------------------------------------------------------------------------

/// Reads one entry, following `p_entry`.
fn parse_entry(s: &str, i: usize) -> (r: Option<(IconEntry, usize)>)
    requires
        i <= s@.len(),
    ensures
        match r {
            Some((e, j)) => p_entry(s@, i as int) == Some((e@, j as int)) && i < j <= s@.len(),
            None => p_entry(s@, i as int) is None,
        },
{
    let (name, j1) = match parse_string(s, i) {
        Some(v) => v,
        None => {
            return None;
        },
    };
    let j2 = match parse_lit(s, j1, ":{\"x\":") {
        Some(v) => v,
        None => {
            proof {
                reveal_strlit(":{\"x\":");
                assert(":{\"x\":"@ =~= lit_x());
            }
            return None;
        },
    };
    proof {
        reveal_strlit(":{\"x\":");
        assert(":{\"x\":"@ =~= lit_x());
    }
    let (x, j3) = match parse_i32(s, j2) {
        Some(v) => v,
        None => {
            return None;
        },
    };
    let j4 = match parse_lit(s, j3, ",\"y\":") {
        Some(v) => v,
        None => {
            proof {
                reveal_strlit(",\"y\":");
                assert(",\"y\":"@ =~= lit_y());
            }
            return None;
        },
    };
    proof {
        reveal_strlit(",\"y\":");
        assert(",\"y\":"@ =~= lit_y());
    }
    let (y, j5) = match parse_i32(s, j4) {
        Some(v) => v,
        None => {
            return None;
        },
    };
    let j6 = match parse_lit(s, j5, "}") {
        Some(v) => v,
        None => {
            proof {
                reveal_strlit("}");
                assert("}"@ =~= seq!['}']);
            }
            return None;
        },
    };
    proof {
        reveal_strlit("}");
        assert("}"@ =~= seq!['}']);
    }
    Some((IconEntry { name, pos: IconPosition { x, y } }, j6))
}

/// Reads a whole layout document, following `p_layout`.
pub fn load_icon_positions_from(s: &str) -> (r: Option<DesktopIconsLayout>)
    ensures
        match r {
            Some(l) => p_layout(s@) == Some(l@),
            None => p_layout(s@) is None,
        },
{
    let n = s.unicode_len();
    let i = match parse_lit(s, 0, "{\"icons\":{") {
        Some(v) => v,
        None => {
            proof {
                reveal_strlit("{\"icons\":{");
                assert("{\"icons\":{"@ =~= lit_layout_open());
            }
            return None;
        },
    };
    proof {
        reveal_strlit("{\"icons\":{");
        assert("{\"icons\":{"@ =~= lit_layout_open());
    }
    if i < n && s.get_char(i) == '"' {
        let mut icons: Vec<IconEntry> = Vec::new();
        let mut pos: usize = i;
        loop
            invariant
                i <= pos <= n,
                i < n,
                n == s@.len(),
                s@[i as int] == '"',
                p_lit(s@, 0, lit_layout_open()) == Some(i as int),
                match p_entries(s@, pos as int) {
                    Some((es, j)) => p_entries(s@, i as int) == Some(
                        (icons@.map_values(|e: IconEntry| e@) + es, j),
                    ),
                    None => p_entries(s@, i as int) is None,
                },
            decreases n - pos,
        {
            let ghost icons0 = icons@.map_values(|e: IconEntry| e@);
            let (e, j) = match parse_entry(s, pos) {
                Some(v) => v,
                None => {
                    return None;
                },
            };
            icons.push(e);
            proof {
                assert(icons@.map_values(|q: IconEntry| q@) =~= icons0.push(e@));
            }
            if j < n && s.get_char(j) == ',' {
                proof {
                    match p_entries(s@, j as int + 1) {
                        Some((es, k)) => {
                            assert(icons0.push(e@) + es =~= icons0 + (seq![e@] + es));
                        },
                        None => {},
                    }
                }
                pos = j + 1;
            } else {
                proof {
                    assert(p_entries(s@, pos as int) == Some((seq![e@], j as int)));
                    assert(icons0.push(e@) =~= icons0 + seq![e@]);
                }
                let jj = match parse_lit(s, j, "}}") {
                    Some(v) => v,
                    None => {
                        proof {
                            reveal_strlit("}}");
                            assert("}}"@ =~= seq!['}', '}']);
                        }
                        return None;
                    },
                };
                proof {
                    reveal_strlit("}}");
                    assert("}}"@ =~= seq!['}', '}']);
                }
                if jj == n {
                    return Some(DesktopIconsLayout { icons });
                } else {
                    return None;
                }
            }
        }
    } else {
        let j = match parse_lit(s, i, "}}") {
            Some(v) => v,
            None => {
                proof {
                    reveal_strlit("}}");
                    assert("}}"@ =~= seq!['}', '}']);
                }
                return None;
            },
        };
        proof {
            reveal_strlit("}}");
            assert("}}"@ =~= seq!['}', '}']);
        }
        if j == n {
            let l = DesktopIconsLayout { icons: Vec::new() };
            proof {
                assert(l@ =~= Seq::<LayoutEntry>::empty());
            }
            Some(l)
        } else {
            None
        }
    }
}

/// Reads a layout from the sidecar file's content; a missing or
/// unreadable document gives the empty layout, never a failure.
pub fn load_icon_positions(content: Option<&str>) -> (r: DesktopIconsLayout)
    ensures
        match content {
            Some(s) => match p_layout(s@) {
                Some(es) => r@ == es,
                None => r@ == Seq::<LayoutEntry>::empty(),
            },
            None => r@ == Seq::<LayoutEntry>::empty(),
        },
{
    match content {
        Some(s) => match load_icon_positions_from(s) {
            Some(l) => l,
            None => DesktopIconsLayout::empty(),
        },
        None => DesktopIconsLayout::empty(),
    }
}

} // verus!
