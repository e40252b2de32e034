//! Options of the symbol picker: the symbols not yet watched, matching the
//! typed text without regard to case, in order.
use vstd::prelude::*;
use crate::symbols::Symbol;

verus! {

/// What `str::to_lowercase` makes of a text.
pub uninterp spec fn lower_of(s: Seq<char>) -> Seq<char>;

/// Relies on `str::to_lowercase`: the result depends on the characters
/// alone.
#[verifier::external_body]
fn lowercase(s: &str) -> (r: String)
    ensures
        r@ == lower_of(s@),
{
    s.to_lowercase()
}

/// Whether `needle` occurs in `hay` as a run of characters.
pub open spec fn has_infix(hay: Seq<char>, needle: Seq<char>) -> bool {
    exists|i: int| 0 <= i && i + needle.len() <= hay.len() && #[trigger] hay.subrange(i, i + needle.len()) == needle
}

/// Relies on `str::contains` with a `&str` pattern: whether the pattern
/// occurs in the text.
#[verifier::external_body]
fn contains_text(hay: &str, needle: &str) -> (r: bool)
    ensures
        r == has_infix(hay@, needle@),
{
    hay.contains(needle)
}

/// Lexicographic order of texts by their characters.
pub open spec fn lex_le(a: Seq<char>, b: Seq<char>) -> bool
    decreases a.len(),
{
    if a.len() == 0 {
        true
    } else if b.len() == 0 {
        false
    } else if (a[0] as u32) != (b[0] as u32) {
        (a[0] as u32) < (b[0] as u32)
    } else {
        lex_le(a.drop_first(), b.drop_first())
    }
}

/// Relies on `str`'s `<=`: texts compare byte by byte, which on UTF-8 is
/// the order of their characters.
#[verifier::external_body]
fn text_le(a: &str, b: &str) -> (r: bool)
    ensures
        r == lex_le(a@, b@),
{
    a <= b
}

proof fn lemma_lex_total(a: Seq<char>, b: Seq<char>)
    ensures
        lex_le(a, b) || lex_le(b, a),
    decreases a.len(),
{
    if a.len() > 0 && b.len() > 0 && (a[0] as u32) == (b[0] as u32) {
        lemma_lex_total(a.drop_first(), b.drop_first());
    }
}

proof fn lemma_lex_transitive(a: Seq<char>, b: Seq<char>, c: Seq<char>)
    requires
        lex_le(a, b),
        lex_le(b, c),
    ensures
        lex_le(a, c),
    decreases a.len(),
{
    if a.len() > 0 && b.len() > 0 && c.len() > 0 && (a[0] as u32) == (b[0] as u32) && (b[0] as u32)
        == (c[0] as u32) {
        lemma_lex_transitive(a.drop_first(), b.drop_first(), c.drop_first());
    }
}

pub open spec fn views(v: Seq<String>) -> Seq<Seq<char>> {
    v.map_values(|s: String| s@)
}

pub open spec fn sorted(v: Seq<Seq<char>>) -> bool {
    forall|i: int, j: int| 0 <= i < j < v.len() ==> lex_le(#[trigger] v[i], #[trigger] v[j])
}

/// Puts `x` after the texts that do not follow it.
fn insert_sorted(out: &mut Vec<String>, x: String)
    requires
        sorted(views(old(out)@)),
    ensures
        sorted(views(final(out)@)),
        views(final(out)@).to_multiset() == views(old(out)@).to_multiset().insert(x@),
        final(out)@.len() == old(out)@.len() + 1,
{
    let mut p: usize = 0;
    let mut found = false;
    while p < out.len() && !found
        invariant
            p <= out@.len(),
            forall|j: int| 0 <= j < p ==> lex_le(#[trigger] views(out@)[j], x@),
            found ==> p < out@.len() && !lex_le(views(out@)[p as int], x@),
        decreases out@.len() - p + if found {
            0int
        } else {
            1int
        },
    {
        if text_le(out[p].as_str(), x.as_str()) {
            p = p + 1;
        } else {
            found = true;
        }
    }
    let ghost before = views(out@);
    proof {
        if p < out@.len() {
            lemma_lex_total(out@[p as int]@, x@);
        }
    }
    out.insert(p, x);
    proof {
        let after = views(out@);
        assert(after =~= before.insert(p as int, x@));
        vstd::seq_lib::to_multiset_insert(before, p as int, x@);
        assert forall|a: int, b: int| 0 <= a < b < after.len() implies lex_le(#[trigger] after[a], #[trigger] after[b]) by {
            if b < p {
            } else if b == p {
            } else if a < p {
                if a < p && p < before.len() {
                }
            } else if a == p {
                if b - 1 == p {
                    lemma_lex_reflexive(before[p as int]);
                }
                assert(lex_le(before[p as int], before[b - 1]));
                lemma_lex_transitive(x@, before[p as int], before[b - 1]);
            } else {
                assert(after[a] == before[a - 1]);
                assert(after[b] == before[b - 1]);
            }
        }
    }
}

proof fn lemma_lex_reflexive(a: Seq<char>)
    ensures
        lex_le(a, a),
    decreases a.len(),
{
    if a.len() > 0 {
        lemma_lex_reflexive(a.drop_first());
    }
}

/// The texts in order.
pub fn sorted_texts(v: Vec<String>) -> (r: Vec<String>)
    ensures
        sorted(views(r@)),
        views(r@).to_multiset() == views(v@).to_multiset(),
{
    let mut out: Vec<String> = Vec::new();
    let mut i: usize = 0;
    assert(views(out@) =~= views(v@.take(0)));
    while i < v.len()
        invariant
            i <= v@.len(),
            sorted(views(out@)),
            views(out@).to_multiset() == views(v@.take(i as int)).to_multiset(),
        decreases v@.len() - i,
    {
        insert_sorted(&mut out, v[i].clone());
        proof {
            assert(views(v@.take(i + 1)) =~= views(v@.take(i as int)).push(v@[i as int]@));
            vstd::seq_lib::to_multiset_build(views(v@.take(i as int)), v@[i as int]@);
        }
        i = i + 1;
    }
    proof {
        assert(v@.take(v@.len() as int) =~= v@);
    }
    out
}


/// Whether a symbol is on the watchlist.
pub open spec fn is_watched(w: Seq<Symbol>, s: Seq<char>) -> bool {
    exists|i: int| 0 <= i < w.len() && #[trigger] w[i].symbol@ == s
}

/// The symbols offered: those not watched and, where text was typed, whose
/// lower-case form holds the lower-case text; in the instruments' order.
pub open spec fn picked(is: Seq<Symbol>, w: Seq<Symbol>, typed: Option<Seq<char>>) -> Seq<Seq<char>>
    decreases is.len(),
{
    if is.len() == 0 {
        Seq::empty()
    } else {
        let rest = picked(is.drop_last(), w, typed);
        let s = is.last().symbol@;
        let matching = match typed {
            Some(t) => has_infix(lower_of(s), lower_of(t)),
            None => true,
        };
        if !is_watched(w, s) && matching {
            rest.push(s)
        } else {
            rest
        }
    }
}

fn watched_exec(w: &[Symbol], s: &String) -> (r: bool)
    ensures
        r == is_watched(w@, s@),
{
    let mut i: usize = 0;
    while i < w.len()
        invariant
            i <= w@.len(),
            forall|j: int| 0 <= j < i ==> (#[trigger] w@[j]).symbol@ != s@,
        decreases w@.len() - i,
    {
        if w[i].symbol == *s {
            return true;
        }
        i = i + 1;
    }
    false
}

/// The offered symbols in the instruments' order.
fn pick(instruments: &[Symbol], watchlist: &[Symbol], typed: Option<&str>) -> (r: Vec<String>)
    ensures
        views(r@) == picked(
            instruments@,
            watchlist@,
            match typed {
                Some(t) => Some(t@),
                None => None,
            },
        ),
{
    let ghost t = match typed {
        Some(t) => Some(t@),
        None => None::<Seq<char>>,
    };
    let lowered: Option<String> = match typed {
        Some(t) => Some(lowercase(t)),
        None => None,
    };
    let mut out: Vec<String> = Vec::new();
    let mut i: usize = 0;
    assert(views(out@) =~= picked(instruments@.take(0), watchlist@, t));
    while i < instruments.len()
        invariant
            i <= instruments@.len(),
            t == match typed {
                Some(x) => Some(x@),
                None => None::<Seq<char>>,
            },
            lowered.is_some() == t.is_some(),
            lowered.is_some() ==> lowered.unwrap()@ == lower_of(t.unwrap()),
            views(out@) == picked(instruments@.take(i as int), watchlist@, t),
        decreases instruments@.len() - i,
    {
        let sym = &instruments[i].symbol;
        let matching = match &lowered {
            Some(l) => {
                let lower_sym = lowercase(sym.as_str());
                contains_text(lower_sym.as_str(), l.as_str())
            },
            None => true,
        };
        let ghost before = views(out@);
        if !watched_exec(watchlist, sym) && matching {
            out.push(sym.clone());
            proof {
                assert(views(out@) =~= before.push(sym@));
            }
        }
        proof {
            let next = instruments@.take(i + 1);
            assert(next.drop_last() == instruments@.take(i as int));
            assert(next.last() == instruments@[i as int]);
        }
        i = i + 1;
    }
    proof {
        assert(instruments@.take(instruments@.len() as int) == instruments@);
    }
    out
}

/// The symbols not yet watched whose lower-case form holds the lower-case
/// `input`, in order.
pub fn get_current_select_state(instruments: &Vec<Symbol>, input: &str, watchlist: &Vec<Symbol>) -> (r: Vec<String>)
    ensures
        sorted(views(r@)),
        views(r@).to_multiset() == picked(instruments@, watchlist@, Some(input@)).to_multiset(),
{
    let offered = pick(instruments.as_slice(), watchlist.as_slice(), Some(input));
    sorted_texts(offered)
}

/// Most options shown before anything is typed.
pub const DEFAULT_OPTIONS: usize = 10;

/// The first symbols in order that are not yet watched, at most ten.
pub fn get_default_select_state(instruments: &[Symbol], watchlist: &[Symbol]) -> (r: Vec<String>)
    ensures
        exists|all: Seq<Seq<char>>|
            sorted(all) && all.to_multiset() == picked(instruments@, watchlist@, None).to_multiset() && views(r@)
                == all.take(
                if all.len() < DEFAULT_OPTIONS {
                    all.len() as int
                } else {
                    DEFAULT_OPTIONS as int
                },
            ),
{
    let offered = pick(instruments, watchlist, None);
    let all = sorted_texts(offered);
    let mut r: Vec<String> = Vec::new();
    let mut i: usize = 0;
    let n: usize = if all.len() < DEFAULT_OPTIONS {
        all.len()
    } else {
        DEFAULT_OPTIONS
    };
    while i < n
        invariant
            i <= n <= all@.len(),
            views(r@) == views(all@).take(i as int),
        decreases n - i,
    {
        let ghost before = views(r@);
        r.push(all[i].clone());
        proof {
            assert(views(r@) =~= before.push(all@[i as int]@));
            assert(views(all@).take(i + 1) =~= views(all@).take(i as int).push(all@[i as int]@));
        }
        i = i + 1;
    }
    proof {
        let v = views(all@);
        assert(v.len() == all@.len());
        assert(sorted(v) && v.to_multiset() == picked(instruments@, watchlist@, None).to_multiset() && views(r@)
            == v.take(
            if v.len() < DEFAULT_OPTIONS {
                v.len() as int
            } else {
                DEFAULT_OPTIONS as int
            },
        ));
    }
    r
}

} // verus!
