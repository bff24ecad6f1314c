//! Correction-table generation.
//!
//! Enumerates the syndromes of all single and double substitution errors
//! over a share of fixed length, and inverts the mapping: a decoder can
//! look an observed syndrome up and recover the most likely error pattern.

use vstd::prelude::*;
use vstd::multiset::Multiset;

use crate::Case;
use crate::field::Fe;
use crate::field::fe_add_v;
use crate::field::upper_char_of;
use crate::checksum::Engine;
use crate::checksum::short_gen;
use crate::checksum::short_target;
use crate::checksum::short_target_vec;
use crate::checksum::poly_step;
use crate::checksum::poly_run;
use crate::push_char;

verus! {

/// One substitution error in a share: a data position and the nonzero
/// difference added there.
#[derive(Copy, Clone, PartialEq, Eq, Hash, Debug, Structural)]
pub struct CorrectionError {
    /// Position within the data part of the share.
    pub position: usize,
    /// The difference added to the share at that position; never zero.
    pub diff: Fe,
}

/// One line of the correction table: a rendered syndrome and the error
/// pattern that produces it.
pub struct TableEntry {
    /// The syndrome, re-centered by the target tag and rendered uppercase.
    pub residue: String,
    /// The single or double error pattern producing this syndrome.
    pub errors: Vec<CorrectionError>,
}

/// The all-zero residue.
pub open spec fn zero_residue(n: int) -> Seq<u8> {
    Seq::new(n as nat, |i: int| 0u8)
}

/// A data stream of zeros with one error `d` at position `i`.
pub open spec fn err_stream1(len: int, i: int, d: u8) -> Seq<u8> {
    Seq::new(len as nat, |k: int| if k == i { d } else { 0u8 })
}

/// A data stream of zeros with errors `d1` at `i` and `d2` at `j`.
pub open spec fn err_stream2(len: int, i: int, j: int, d1: u8, d2: u8) -> Seq<u8> {
    Seq::new(
        len as nat,
        |k: int|
            if k == i {
                d1
            } else if k == j {
                d2
            } else {
                0u8
            },
    )
}

/// The uppercase rendering of a residue after adding the short target tag.
pub open spec fn render_upper(r: Seq<u8>) -> Seq<char> {
    Seq::new(r.len(), |i: int| upper_char_of(fe_add_v(r[i], short_target()[i])))
}

/// The rendered syndrome of a single error.
pub open spec fn single_residue(len: int, i: int, d: u8) -> Seq<char> {
    render_upper(poly_run(short_gen(), zero_residue(13), err_stream1(len, i, d)))
}

/// The rendered syndrome of a double error.
pub open spec fn double_residue(len: int, i: int, j: int, d1: u8, d2: u8) -> Seq<char> {
    render_upper(poly_run(short_gen(), zero_residue(13), err_stream2(len, i, j, d1, d2)))
}

/// An entry is sound if its residue is the rendered syndrome of exactly
/// the error pattern it lists, and that pattern is a single or double
/// error within the data part.
pub open spec fn entry_sound(e: TableEntry, data_len: int) -> bool {
    ||| (exists|i: int, d: u8|
        0 <= i < data_len - 13 && 1 <= d < 32 && e.residue@ == single_residue(data_len, i, d)
            && e.errors@.len() == 1 && #[trigger] e.errors@[0].position == i && e.errors@[0].diff@
            == d)
    ||| (exists|i: int, j: int, d1: u8, d2: u8|
        0 <= i && i < j < data_len && 1 <= d1 < 32 && 1 <= d2 < 32 && e.residue@ == double_residue(
            data_len,
            i,
            j,
            d1,
            d2,
        ) && e.errors@.len() == 2 && #[trigger] e.errors@[0].position == i && e.errors@[0].diff@
            == d1 && #[trigger] e.errors@[1].position == j && e.errors@[1].diff@ == d2)
}

/// Two entries carry the same residue rendering and the same pattern.
pub open spec fn entry_like(x: TableEntry, y: TableEntry) -> bool {
    x.residue@ == y.residue@ && x.errors@ == y.errors@
}

/// The entry carries the same residue and pattern as one of `s`.
pub open spec fn from_entries(x: TableEntry, s: Seq<TableEntry>) -> bool {
    exists|k2: int| 0 <= k2 < s.len() && entry_like(x, #[trigger] s[k2])
}

/// A rendered syndrome occurs among the entries.
pub open spec fn covers(t: Seq<TableEntry>, res: Seq<char>) -> bool {
    exists|k: int| 0 <= k < t.len() && #[trigger] t[k].residue@ == res
}

/// Running the remainder one more step equals running it over the
/// sequence extended by one element.
pub proof fn lemma_poly_run_snoc(g: Seq<u8>, r: Seq<u8>, es: Seq<u8>, e: u8)
    ensures
        poly_run(g, r, es.push(e)) == poly_step(g, poly_run(g, r, es), e),
    decreases es.len(),
{
    let p = es.push(e);
    if es.len() == 0 {
        assert(p[0] == e);
        assert(p.drop_first() =~= Seq::<u8>::empty());
        assert(poly_run(g, r, p) == poly_run(g, poly_step(g, r, e), p.drop_first()));
        assert(poly_run(g, poly_step(g, r, e), p.drop_first()) == poly_step(g, r, e));
        assert(poly_run(g, r, es) == r);
    } else {
        assert(p[0] == es[0]);
        assert(p.drop_first() =~= es.drop_first().push(e));
        assert(poly_run(g, r, p) == poly_run(g, poly_step(g, r, es[0]), es.drop_first().push(e)));
        lemma_poly_run_snoc(g, poly_step(g, r, es[0]), es.drop_first(), e);
        assert(poly_run(g, r, es) == poly_run(g, poly_step(g, r, es[0]), es.drop_first()));
    }
}

/// Extracts the residue of a short engine, adds the target tag to each
/// element, and renders the result as an uppercase string.
#[verifier::loop_isolation(false)]
pub fn engine_to_residue(engine: Engine) -> (r: String)
    requires
        engine.wf(),
        engine.is_short(),
    ensures
        r@ == render_upper(engine.res_vals()),
{
    let ghost vals = engine.res_vals();
    let tag = short_target_vec();
    let residue = engine.into_residue();
    proof {
        assert(short_gen().len() == 12);
        assert(vals.len() == 13);
        assert(tag@.map_values(|f: Fe| f@).len() == tag@.len());
        assert(residue@.map_values(|f: Fe| f@).len() == residue@.len());
        assert(tag@.len() == 13);
        assert(residue@.len() == 13);
    }
    let mut out = String::new();
    let mut i: usize = 0;
    while i < 13
        invariant
            i <= 13,
            out@ == render_upper(vals).take(i as int),
        decreases 13 - i,
    {
        let f = residue[i];
        let t = tag[i];
        proof {
            assert(f@ == vals[i as int]);
            assert(t@ == short_target()[i as int]);
            assert(render_upper(vals).take(i as int + 1) =~= render_upper(vals).take(
                i as int,
            ).push(upper_char_of(fe_add_v(vals[i as int], short_target()[i as int]))));
        }
        let c = f.add(t).to_char_case(Case::Upper);
        push_char(&mut out, c);
        i += 1;
    }
    proof {
        assert(render_upper(vals).take(13) =~= render_upper(vals));
    }
    out
}

/// A fresh short engine with its residue forced to zero, as the syndrome
/// computations use it.
fn zeroed_short_engine() -> (r: Engine)
    ensures
        r.wf(),
        r.is_short(),
        r.spec_case() is None,
        r.res_vals() == zero_residue(13),
{
    let mut engine = Engine::new_codex32_short();
    engine.force_residue_to_zero();
    proof {
        assert(engine.res_vals() =~= zero_residue(13));
    }
    engine
}

/// The rendered syndrome of a single error at `i` with difference `d`.
#[verifier::loop_isolation(false)]
fn single_residue_str(data_len: usize, i: usize, d: Fe) -> (r: String)
    requires
        i < data_len,
        d@ < 32,
    ensures
        r@ == single_residue(data_len as int, i as int, d@),
{
    let ghost stream = err_stream1(data_len as int, i as int, d@);
    let mut engine = zeroed_short_engine();
    let mut scan: usize = 0;
    while scan < data_len
        invariant
            scan <= data_len,
            engine.wf(),
            engine.is_short(),
            engine.res_vals() == poly_run(short_gen(), zero_residue(13), stream.take(scan as int)),
        decreases data_len - scan,
    {
        proof {
            assert(stream.take(scan as int + 1) =~= stream.take(scan as int).push(
                stream[scan as int],
            ));
            lemma_poly_run_snoc(
                short_gen(),
                zero_residue(13),
                stream.take(scan as int),
                stream[scan as int],
            );
        }
        if scan == i {
            engine.input_fe(d);
        } else {
            engine.input_fe(Fe::new(0));
        }
        scan += 1;
    }
    proof {
        assert(stream.take(data_len as int) =~= stream);
    }
    engine_to_residue(engine)
}

/// The rendered syndrome of a double error: `d1` at `i` and `d2` at `j`.
#[verifier::loop_isolation(false)]
fn double_residue_str(data_len: usize, i: usize, j: usize, d1: Fe, d2: Fe) -> (r: String)
    requires
        i < j < data_len,
        d1@ < 32,
        d2@ < 32,
    ensures
        r@ == double_residue(data_len as int, i as int, j as int, d1@, d2@),
{
    let ghost stream = err_stream2(data_len as int, i as int, j as int, d1@, d2@);
    let mut engine = zeroed_short_engine();
    let mut scan: usize = 0;
    while scan < data_len
        invariant
            scan <= data_len,
            engine.wf(),
            engine.is_short(),
            engine.res_vals() == poly_run(short_gen(), zero_residue(13), stream.take(scan as int)),
        decreases data_len - scan,
    {
        proof {
            assert(stream.take(scan as int + 1) =~= stream.take(scan as int).push(
                stream[scan as int],
            ));
            lemma_poly_run_snoc(
                short_gen(),
                zero_residue(13),
                stream.take(scan as int),
                stream[scan as int],
            );
        }
        if scan == i {
            engine.input_fe(d1);
        } else if scan == j {
            engine.input_fe(d2);
        } else {
            engine.input_fe(Fe::new(0));
        }
        scan += 1;
    }
    proof {
        assert(stream.take(data_len as int) =~= stream);
    }
    engine_to_residue(engine)
}

/// Lexicographic order on character sequences, by code point.
pub open spec fn lex_lt(a: Seq<char>, b: Seq<char>) -> bool
    decreases a.len(),
{
    if b.len() == 0 {
        false
    } else if a.len() == 0 {
        true
    } else if (a[0] as u32) < (b[0] as u32) {
        true
    } else if (b[0] as u32) < (a[0] as u32) {
        false
    } else {
        lex_lt(a.drop_first(), b.drop_first())
    }
}

/// The reflexive lexicographic order.
pub open spec fn lex_le(a: Seq<char>, b: Seq<char>) -> bool {
    !lex_lt(b, a)
}

proof fn lemma_lex_connex(a: Seq<char>, b: Seq<char>)
    ensures
        lex_lt(a, b) || lex_lt(b, a) || a == b,
    decreases a.len(),
{
    if a.len() > 0 && b.len() > 0 {
        if a[0] == b[0] {
            lemma_lex_connex(a.drop_first(), b.drop_first());
            if !lex_lt(a, b) && !lex_lt(b, a) {
                assert(a.drop_first() == b.drop_first());
                assert(a =~= b) by {
                    assert(forall|k: int|
                        1 <= k < a.len() ==> a[k] == a.drop_first()[k - 1] && b[k]
                            == b.drop_first()[k - 1]);
                }
            }
        } else {
            assert(a[0] as u32 != b[0] as u32) by {
                vstd::utf8::char_u32_cast(a[0], a[0] as u32);
                vstd::utf8::char_u32_cast(b[0], b[0] as u32);
            }
        }
    } else if a.len() == 0 && b.len() == 0 {
        assert(a =~= b);
    }
}

proof fn lemma_lex_lt_trans(a: Seq<char>, b: Seq<char>, c: Seq<char>)
    ensures
        lex_lt(a, b) && lex_lt(b, c) ==> lex_lt(a, c),
    decreases a.len(),
{
    if a.len() > 0 && b.len() > 0 && c.len() > 0 {
        lemma_lex_lt_trans(a.drop_first(), b.drop_first(), c.drop_first());
    }
}

proof fn lemma_lex_irrefl(a: Seq<char>)
    ensures
        !lex_lt(a, a),
    decreases a.len(),
{
    if a.len() > 0 {
        lemma_lex_irrefl(a.drop_first());
    }
}

proof fn lemma_lex_le_trans(a: Seq<char>, b: Seq<char>, c: Seq<char>)
    ensures
        lex_le(a, b) && lex_le(b, c) ==> lex_le(a, c),
{
    if lex_le(a, b) && lex_le(b, c) && lex_lt(c, a) {
        lemma_lex_connex(b, c);
        if b == c {
            assert(lex_lt(c, a) == lex_lt(b, a));
        } else {
            lemma_lex_lt_trans(b, c, a);
        }
    }
}

/// The entries are sorted by residue.
pub open spec fn entries_sorted(s: Seq<TableEntry>) -> bool {
    forall|x: int, y: int|
        0 <= x < y < s.len() ==> lex_le(#[trigger] s[x].residue@, #[trigger] s[y].residue@)
}

/// The entries are strictly sorted by residue: sorted, with no duplicate.
pub open spec fn entries_strictly_sorted(s: Seq<TableEntry>) -> bool {
    forall|x: int, y: int|
        0 <= x < y < s.len() ==> lex_lt(#[trigger] s[x].residue@, #[trigger] s[y].residue@)
}

/// Compares two rendered residues lexicographically.
#[verifier::loop_isolation(false)]
fn residue_le(a: &String, b: &String) -> (r: bool)
    ensures
        r == lex_le(a@, b@),
{
    let an = a.as_str().unicode_len();
    let bn = b.as_str().unicode_len();
    proof {
        assert(a@.skip(0) =~= a@);
        assert(b@.skip(0) =~= b@);
    }
    let mut i: usize = 0;
    while i < an && i < bn
        invariant
            i <= an,
            i <= bn,
            lex_le(a@, b@) == lex_le(a@.skip(i as int), b@.skip(i as int)),
        decreases an - i,
    {
        let ca = a.as_str().get_char(i);
        let cb = b.as_str().get_char(i);
        proof {
            assert(a@.skip(i as int)[0] == a@[i as int]);
            assert(b@.skip(i as int)[0] == b@[i as int]);
            assert(a@.skip(i as int).drop_first() =~= a@.skip(i as int + 1));
            assert(b@.skip(i as int).drop_first() =~= b@.skip(i as int + 1));
        }
        if (ca as u32) < (cb as u32) {
            return true;
        }
        if (cb as u32) < (ca as u32) {
            return false;
        }
        i += 1;
    }
    proof {
        if an <= bn {
            assert(a@.skip(i as int).len() == 0);
        } else {
            assert(b@.skip(i as int).len() == 0);
            assert(a@.skip(i as int).len() > 0);
        }
    }
    an <= bn
}

/// Merges two runs sorted by residue into one, largest elements taken
/// from the back first, then reversed.
#[verifier::loop_isolation(false)]
fn merge_entries(a: Vec<TableEntry>, b: Vec<TableEntry>) -> (r: Vec<TableEntry>)
    requires
        entries_sorted(a@),
        entries_sorted(b@),
    ensures
        entries_sorted(r@),
        r@.to_multiset() == a@.to_multiset().add(b@.to_multiset()),
{
    broadcast use vstd::seq_lib::group_to_multiset_ensures;

    let ghost a0 = a@;
    let ghost b0 = b@;
    let mut a = a;
    let mut b = b;
    let mut rev: Vec<TableEntry> = Vec::new();
    proof {
        assert(a0.take(a0.len() as int) =~= a0);
        assert(b0.take(b0.len() as int) =~= b0);
        assert(rev@.to_multiset().add(a@.to_multiset()).add(b@.to_multiset()) =~= a0.to_multiset(
        ).add(b0.to_multiset()));
    }
    while a.len() > 0 || b.len() > 0
        invariant
            a@.len() <= a0.len(),
            b@.len() <= b0.len(),
            a@ == a0.take(a@.len() as int),
            b@ == b0.take(b@.len() as int),
            rev@.to_multiset().add(a@.to_multiset()).add(b@.to_multiset()) == a0.to_multiset().add(
                b0.to_multiset(),
            ),
            forall|x: int, y: int|
                0 <= x < y < rev@.len() ==> lex_le(
                    #[trigger] rev@[y].residue@,
                    #[trigger] rev@[x].residue@,
                ),
            rev@.len() > 0 ==> (forall|k: int|
                0 <= k < a@.len() ==> lex_le(
                    #[trigger] a@[k].residue@,
                    rev@[rev@.len() - 1].residue@,
                )),
            rev@.len() > 0 ==> (forall|k: int|
                0 <= k < b@.len() ==> lex_le(
                    #[trigger] b@[k].residue@,
                    rev@[rev@.len() - 1].residue@,
                )),
        decreases a@.len() + b@.len(),
    {
        let take_a: bool;
        if a.len() == 0 {
            take_a = false;
        } else if b.len() == 0 {
            take_a = true;
        } else {
            // Take the larger of the two run ends.
            take_a = !residue_le(&a[a.len() - 1].residue, &b[b.len() - 1].residue);
            proof {
                if take_a {
                    // The end of `a` is strictly larger, so it bounds both runs.
                    lemma_lex_irrefl(a@[a@.len() - 1].residue@);
                    lemma_lex_lt_trans(
                        a@[a@.len() - 1].residue@,
                        b@[b@.len() - 1].residue@,
                        a@[a@.len() - 1].residue@,
                    );
                    assert(lex_le(b@[b@.len() - 1].residue@, a@[a@.len() - 1].residue@));
                }
            }
        }
        if take_a {
            let ghost prev = a@;
            let ghost rev0 = rev@;
            let e = a.pop().unwrap();
            proof {
                assert(prev.drop_last() =~= a0.take(a@.len() as int));
                assert(prev =~= a@.push(e));
                assert forall|k: int| 0 <= k < b@.len() implies lex_le(
                    #[trigger] b@[k].residue@,
                    e.residue@,
                ) by {
                    lemma_lex_le_trans(
                        b@[k].residue@,
                        b@[b@.len() - 1].residue@,
                        e.residue@,
                    );
                }
            }
            rev.push(e);
            proof {
                assert(rev@.to_multiset().add(a@.to_multiset()).add(b@.to_multiset())
                    =~= rev0.to_multiset().add(prev.to_multiset()).add(b@.to_multiset()));
                assert forall|x: int, y: int| 0 <= x < y < rev@.len() implies lex_le(
                    #[trigger] rev@[y].residue@,
                    #[trigger] rev@[x].residue@,
                ) by {
                    if y == rev@.len() - 1 && rev0.len() > 0 {
                        assert(rev@[y] == e);
                        assert(rev@[x] == rev0[x]);
                        assert(e == prev[prev.len() - 1]);
                        assert(lex_le(e.residue@, rev0[rev0.len() - 1].residue@));
                        if x < rev0.len() - 1 {
                            lemma_lex_le_trans(
                                e.residue@,
                                rev0[rev0.len() - 1].residue@,
                                rev0[x].residue@,
                            );
                        }
                    }
                }
            }
        } else {
            let ghost prev = b@;
            let ghost rev0 = rev@;
            let e = b.pop().unwrap();
            proof {
                assert(prev.drop_last() =~= b0.take(b@.len() as int));
                assert(prev =~= b@.push(e));
                if a@.len() > 0 {
                    assert forall|k: int| 0 <= k < a@.len() implies lex_le(
                        #[trigger] a@[k].residue@,
                        e.residue@,
                    ) by {
                        lemma_lex_le_trans(
                            a@[k].residue@,
                            a@[a@.len() - 1].residue@,
                            e.residue@,
                        );
                    }
                }
            }
            rev.push(e);
            proof {
                assert(rev@.to_multiset().add(a@.to_multiset()).add(b@.to_multiset())
                    =~= rev0.to_multiset().add(a@.to_multiset()).add(prev.to_multiset()));
                assert forall|x: int, y: int| 0 <= x < y < rev@.len() implies lex_le(
                    #[trigger] rev@[y].residue@,
                    #[trigger] rev@[x].residue@,
                ) by {
                    if y == rev@.len() - 1 && rev0.len() > 0 {
                        assert(rev@[y] == e);
                        assert(rev@[x] == rev0[x]);
                        assert(e == prev[prev.len() - 1]);
                        assert(lex_le(e.residue@, rev0[rev0.len() - 1].residue@));
                        if x < rev0.len() - 1 {
                            lemma_lex_le_trans(
                                e.residue@,
                                rev0[rev0.len() - 1].residue@,
                                rev0[x].residue@,
                            );
                        }
                    }
                }
            }
        }
    }
    let mut out: Vec<TableEntry> = Vec::new();
    let ghost whole = rev@;
    while rev.len() > 0
        invariant
            rev@ == whole.take(rev@.len() as int),
            out@.to_multiset().add(rev@.to_multiset()) == whole.to_multiset(),
            out@.len() + rev@.len() == whole.len(),
            forall|x: int, y: int|
                0 <= x < y < whole.len() ==> lex_le(
                    #[trigger] whole[y].residue@,
                    #[trigger] whole[x].residue@,
                ),
            forall|x: int|
                0 <= x < out@.len() ==> #[trigger] out@[x] == whole[whole.len() - 1 - x],
        decreases rev@.len(),
    {
        let ghost prev = rev@;
        let e = rev.pop().unwrap();
        proof {
            assert(prev.drop_last() =~= whole.take(rev@.len() as int));
            assert(prev =~= rev@.push(e));
        }
        out.push(e);
    }
    proof {
        assert(rev@.to_multiset() =~= Multiset::<TableEntry>::empty());
        assert(out@.to_multiset() == whole.to_multiset());
        assert forall|x: int, y: int| 0 <= x < y < out@.len() implies lex_le(
            #[trigger] out@[x].residue@,
            #[trigger] out@[y].residue@,
        ) by {
            assert(out@[x] == whole[whole.len() - 1 - x]);
            assert(out@[y] == whole[whole.len() - 1 - y]);
        }
    }
    out
}

/// Sorts entries by residue with a merge sort.
#[verifier::loop_isolation(false)]
fn sort_entries(v: Vec<TableEntry>) -> (r: Vec<TableEntry>)
    ensures
        entries_sorted(r@),
        r@.to_multiset() == v@.to_multiset(),
    decreases v@.len(),
{
    broadcast use vstd::seq_lib::group_to_multiset_ensures;

    if v.len() <= 1 {
        return v;
    }
    let ghost v0 = v@;
    let mid = v.len() / 2;
    let mut left = v;
    let right = left.split_off(mid);
    proof {
        vstd::seq_lib::lemma_multiset_commutative(left@, right@);
        assert(left@ + right@ =~= v0);
    }
    let ls = sort_entries(left);
    let rs = sort_entries(right);
    merge_entries(ls, rs)
}

/// Collapses runs of equal residues, keeping the last entry of each run,
/// as a map keyed by residue would after inserting them in order.
#[verifier::loop_isolation(false)]
fn dedup_entries(v: Vec<TableEntry>) -> (r: Vec<TableEntry>)
    requires
        entries_sorted(v@),
    ensures
        entries_strictly_sorted(r@),
        forall|k: int| 0 <= k < r@.len() ==> from_entries(#[trigger] r@[k], v@),
        forall|k2: int|
            0 <= k2 < v@.len() ==> covers(r@, #[trigger] v@[k2].residue@),
{
    let ghost v0 = v@;
    let mut out: Vec<TableEntry> = Vec::new();
    let n = v.len();
    let mut i: usize = 0;
    while i < n
        invariant
            i <= n,
            n == v@.len(),
            v@ == v0,
            entries_strictly_sorted(out@),
            forall|k: int| 0 <= k < out@.len() ==> from_entries(#[trigger] out@[k], v0),
            forall|k2: int|
                0 <= k2 < i as int ==> covers(out@, #[trigger] v0[k2].residue@) || (i < n
                    && v0[k2].residue@ == v0[i as int].residue@),
            out@.len() > 0 && i < n ==> lex_le(
                out@[out@.len() - 1].residue@,
                v0[i as int].residue@,
            ),
            out@.len() > 0 && i < n ==> out@[out@.len() - 1].residue@ != v0[i as int].residue@,
        decreases n - i,
    {
        let keep: bool;
        if i + 1 == n {
            keep = true;
        } else {
            keep = !(v[i].residue == v[i + 1].residue);
        }
        let ghost prev_out = out@;
        if keep {
            let entry = clone_entry(&v[i]);
            proof {
                assert(entry.residue@ == v0[i as int].residue@);
            }
            out.push(entry);
            proof {
                assert forall|x: int, y: int| 0 <= x < y < out@.len() implies lex_lt(
                    #[trigger] out@[x].residue@,
                    #[trigger] out@[y].residue@,
                ) by {
                    if y == out@.len() - 1 && prev_out.len() > 0 {
                        assert(out@[y].residue@ == v0[i as int].residue@);
                        lemma_lex_connex(
                            prev_out[prev_out.len() - 1].residue@,
                            v0[i as int].residue@,
                        );
                        assert(lex_lt(
                            prev_out[prev_out.len() - 1].residue@,
                            v0[i as int].residue@,
                        ));
                        if x < prev_out.len() - 1 {
                            assert(out@[x] == prev_out[x]);
                            lemma_lex_lt_trans(
                                out@[x].residue@,
                                prev_out[prev_out.len() - 1].residue@,
                                out@[y].residue@,
                            );
                        }
                    }
                }
                assert forall|k: int| 0 <= k < out@.len() implies from_entries(
                    #[trigger] out@[k],
                    v0,
                ) by {
                    if k < out@.len() - 1 {
                        assert(out@[k] == prev_out[k]);
                        assert(from_entries(prev_out[k], v0));
                    } else {
                        assert(entry_like(out@[k], v0[i as int]));
                    }
                }
            }
        }
        proof {
            let i1 = i as int + 1;
            assert forall|k2: int|
                0 <= k2 < i1 implies covers(out@, #[trigger] v0[k2].residue@) || (i1 < n as int
                && v0[k2].residue@ == v0[i1].residue@) by {
                if keep {
                    if k2 == i as int {
                        assert(out@[out@.len() - 1].residue@ == v0[k2].residue@);
                        assert(covers(out@, v0[k2].residue@));
                    } else if covers(prev_out, v0[k2].residue@) {
                        let w = choose|w: int|
                            0 <= w < prev_out.len() && #[trigger] prev_out[w].residue@
                                == v0[k2].residue@;
                        assert(out@[w].residue@ == v0[k2].residue@);
                        assert(covers(out@, v0[k2].residue@));
                    } else {
                        assert(v0[k2].residue@ == v0[i as int].residue@);
                        assert(out@[out@.len() - 1].residue@ == v0[k2].residue@);
                        assert(covers(out@, v0[k2].residue@));
                    }
                } else {
                    assert(v0[i as int].residue@ == v0[i1].residue@);
                    if k2 < i as int && covers(out@, v0[k2].residue@) {
                    } else {
                        assert(v0[k2].residue@ == v0[i1].residue@);
                    }
                }
            }
            if i1 < n as int && out@.len() > 0 {
                if keep {
                    assert(out@[out@.len() - 1].residue@ == v0[i as int].residue@);
                    assert(lex_le(v0[i as int].residue@, v0[i1].residue@));
                    assert(v0[i as int].residue@ != v0[i1].residue@);
                } else {
                    assert(v0[i as int].residue@ == v0[i1].residue@);
                }
            }
        }
        i += 1;
    }
    out
}

proof fn lemma_covers_push(t: Seq<TableEntry>, e: TableEntry)
    ensures
        forall|res: Seq<char>| covers(t, res) ==> #[trigger] covers(t.push(e), res),
{
    assert forall|res: Seq<char>| covers(t, res) implies #[trigger] covers(t.push(e), res) by {
        let w = choose|k: int| 0 <= k < t.len() && #[trigger] t[k].residue@ == res;
        assert(t.push(e)[w].residue@ == res);
    }
}

proof fn lemma_covers_multiset(s1: Seq<TableEntry>, s2: Seq<TableEntry>)
    requires
        s1.to_multiset() == s2.to_multiset(),
    ensures
        forall|res: Seq<char>| covers(s1, res) ==> #[trigger] covers(s2, res),
{
    broadcast use vstd::seq_lib::group_to_multiset_ensures;

    assert forall|res: Seq<char>| covers(s1, res) implies #[trigger] covers(s2, res) by {
        let w = choose|k: int| 0 <= k < s1.len() && #[trigger] s1[k].residue@ == res;
        let x = s1[w];
        assert(s1.contains(x));
        assert(s1.to_multiset().count(x) > 0);
        assert(s2.contains(x));
        let w2 = choose|k: int| 0 <= k < s2.len() && s2[k] == x;
        assert(s2[w2].residue@ == res);
    }
}

/// Soundness depends only on the entry's views, so it carries over to any
/// entry with the same residue and pattern.
proof fn lemma_sound_like(a: TableEntry, b: TableEntry, dl: int)
    requires
        entry_like(a, b),
        entry_sound(b, dl),
    ensures
        entry_sound(a, dl),
{
}

/// Builds the correction table for shares of the given total length under
/// an HRP of the given length: one entry per distinct syndrome of a
/// single or double substitution error, sorted by the uppercase rendering
/// of the syndrome.  Later-enumerated patterns replace earlier ones that
/// produce the same syndrome.
#[verifier::loop_isolation(false)]
pub fn correction_table(share_len: usize, hrp_len: usize) -> (t: Vec<TableEntry>)
    requires
        hrp_len + 14 <= share_len,
        share_len <= 93,
    ensures
        ({
            let dl = share_len as int - hrp_len as int - 1;
            &&& entries_strictly_sorted(t@)
            &&& (forall|k: int| 0 <= k < t@.len() ==> entry_sound(#[trigger] t@[k], dl))
            &&& (forall|i: int, d: u8|
                0 <= i < dl - 13 && 1 <= d < 32 ==> covers(t@, #[trigger] single_residue(dl, i, d)))
            &&& (forall|i: int, j: int, d1: u8, d2: u8|
                0 <= i < j < dl && 1 <= d1 < 32 && 1 <= d2 < 32 ==> covers(
                    t@,
                    #[trigger] double_residue(dl, i, j, d1, d2),
                ))
            &&& (forall|k: int, l: int|
                0 <= k < t@.len() && 0 <= l < t@[k].errors@.len() ==> #[trigger] t@[k].errors@[l].diff@
                    != 0)
        }),
{
    let data_len = share_len - hrp_len - 1;
    let ghost dl = data_len as int;
    let mut raw: Vec<TableEntry> = Vec::new();
    // Singles: only the positions a 13-character checksum can correct.
    let single_limit = data_len - 13;
    let mut i: usize = 0;
    while i < single_limit
        invariant
            i <= single_limit,
            forall|k: int| 0 <= k < raw@.len() ==> entry_sound(#[trigger] raw@[k], dl),
            forall|i2: int, d: u8|
                0 <= i2 < i as int && 1 <= d < 32 ==> covers(
                    raw@,
                    #[trigger] single_residue(dl, i2, d),
                ),
        decreases single_limit - i,
    {
        let mut dv: u8 = 1;
        while dv < 32
            invariant
                1 <= dv <= 32,
                i < single_limit,
                forall|k: int| 0 <= k < raw@.len() ==> entry_sound(#[trigger] raw@[k], dl),
                forall|i2: int, d: u8|
                    0 <= i2 < i as int && 1 <= d < 32 ==> covers(
                        raw@,
                        #[trigger] single_residue(dl, i2, d),
                    ),
                forall|d: u8|
                    1 <= d < dv ==> covers(raw@, #[trigger] single_residue(dl, i as int, d)),
            decreases 32 - dv,
        {
            let fe = Fe::new(dv);
            let res = single_residue_str(data_len, i, fe);
            let mut errors: Vec<CorrectionError> = Vec::new();
            errors.push(CorrectionError { position: i, diff: fe });
            let entry = TableEntry { residue: res, errors };
            let ghost prev = raw@;
            proof {
                assert(entry.residue@ == single_residue(dl, i as int, dv));
                assert(entry.errors@[0].position == i as int && entry.errors@[0].diff@ == dv);
                assert(entry_sound(entry, dl));
            }
            raw.push(entry);
            proof {
                lemma_covers_push(prev, entry);
                assert forall|k: int| 0 <= k < raw@.len() implies entry_sound(
                    #[trigger] raw@[k],
                    dl,
                ) by {
                    if k < prev.len() {
                        assert(raw@[k] == prev[k]);
                    }
                }
                assert(raw@[raw@.len() - 1].residue@ == single_residue(dl, i as int, dv));
                assert(covers(raw@, single_residue(dl, i as int, dv)));
            }
            dv += 1;
        }
        i += 1;
    }
    // Doubles: all ordered pairs of data positions.
    let mut i: usize = 0;
    while i < data_len
        invariant
            i <= data_len,
            forall|k: int| 0 <= k < raw@.len() ==> entry_sound(#[trigger] raw@[k], dl),
            forall|i2: int, d: u8|
                0 <= i2 < dl - 13 && 1 <= d < 32 ==> covers(
                    raw@,
                    #[trigger] single_residue(dl, i2, d),
                ),
            forall|i2: int, j2: int, d1: u8, d2: u8|
                0 <= i2 < i as int && i2 < j2 < dl && 1 <= d1 < 32 && 1 <= d2 < 32 ==> covers(
                    raw@,
                    #[trigger] double_residue(dl, i2, j2, d1, d2),
                ),
        decreases data_len - i,
    {
        let mut j: usize = i + 1;
        while j < data_len
            invariant
                i < j <= data_len,
                i < data_len,
                forall|k: int| 0 <= k < raw@.len() ==> entry_sound(#[trigger] raw@[k], dl),
                forall|i2: int, d: u8|
                    0 <= i2 < dl - 13 && 1 <= d < 32 ==> covers(
                        raw@,
                        #[trigger] single_residue(dl, i2, d),
                    ),
                forall|i2: int, j2: int, d1: u8, d2: u8|
                    0 <= i2 < i as int && i2 < j2 < dl && 1 <= d1 < 32 && 1 <= d2 < 32 ==> covers(
                        raw@,
                        #[trigger] double_residue(dl, i2, j2, d1, d2),
                    ),
                forall|j2: int, d1: u8, d2: u8|
                    (i as int) < j2 && j2 < j as int && 1 <= d1 < 32 && 1 <= d2 < 32 ==> covers(
                        raw@,
                        #[trigger] double_residue(dl, i as int, j2, d1, d2),
                    ),
            decreases data_len - j,
        {
            let mut dv1: u8 = 1;
            while dv1 < 32
                invariant
                    1 <= dv1 <= 32,
                    i < j < data_len,
                    forall|k: int| 0 <= k < raw@.len() ==> entry_sound(#[trigger] raw@[k], dl),
                    forall|i2: int, d: u8|
                        0 <= i2 < dl - 13 && 1 <= d < 32 ==> covers(
                            raw@,
                            #[trigger] single_residue(dl, i2, d),
                        ),
                    forall|i2: int, j2: int, d1: u8, d2: u8|
                        0 <= i2 < i as int && i2 < j2 < dl && 1 <= d1 < 32 && 1 <= d2 < 32
                            ==> covers(raw@, #[trigger] double_residue(dl, i2, j2, d1, d2)),
                    forall|j2: int, d1: u8, d2: u8|
                        (i as int) < j2 && j2 < j as int && 1 <= d1 < 32 && 1 <= d2 < 32 ==> covers(
                            raw@,
                            #[trigger] double_residue(dl, i as int, j2, d1, d2),
                        ),
                    forall|d1: u8, d2: u8|
                        1 <= d1 < dv1 && 1 <= d2 < 32 ==> covers(
                            raw@,
                            #[trigger] double_residue(dl, i as int, j as int, d1, d2),
                        ),
                decreases 32 - dv1,
            {
                let mut dv2: u8 = 1;
                while dv2 < 32
                    invariant
                        1 <= dv1 < 32,
                        1 <= dv2 <= 32,
                        i < j < data_len,
                        forall|k: int| 0 <= k < raw@.len() ==> entry_sound(#[trigger] raw@[k], dl),
                        forall|i2: int, d: u8|
                            0 <= i2 < dl - 13 && 1 <= d < 32 ==> covers(
                                raw@,
                                #[trigger] single_residue(dl, i2, d),
                            ),
                        forall|i2: int, j2: int, d1: u8, d2: u8|
                            0 <= i2 < i as int && i2 < j2 < dl && 1 <= d1 < 32 && 1 <= d2 < 32
                                ==> covers(raw@, #[trigger] double_residue(dl, i2, j2, d1, d2)),
                        forall|j2: int, d1: u8, d2: u8|
                            (i as int) < j2 && j2 < j as int && 1 <= d1 < 32 && 1 <= d2 < 32
                                ==> covers(raw@, #[trigger] double_residue(dl, i as int, j2, d1, d2)),
                        forall|d1: u8, d2: u8|
                            1 <= d1 < dv1 && 1 <= d2 < 32 ==> covers(
                                raw@,
                                #[trigger] double_residue(dl, i as int, j as int, d1, d2),
                            ),
                        forall|d2: u8|
                            1 <= d2 < dv2 ==> covers(
                                raw@,
                                #[trigger] double_residue(dl, i as int, j as int, dv1, d2),
                            ),
                    decreases 32 - dv2,
                {
                    let fe1 = Fe::new(dv1);
                    let fe2 = Fe::new(dv2);
                    let res = double_residue_str(data_len, i, j, fe1, fe2);
                    let mut errors: Vec<CorrectionError> = Vec::new();
                    errors.push(CorrectionError { position: i, diff: fe1 });
                    errors.push(CorrectionError { position: j, diff: fe2 });
                    let entry = TableEntry { residue: res, errors };
                    let ghost prev = raw@;
                    proof {
                        assert(entry.residue@ == double_residue(
                            dl,
                            i as int,
                            j as int,
                            dv1,
                            dv2,
                        ));
                        assert(entry.errors@[0].position == i as int && entry.errors@[0].diff@
                            == dv1);
                        assert(entry.errors@[1].position == j as int && entry.errors@[1].diff@
                            == dv2);
                        assert(entry_sound(entry, dl));
                    }
                    raw.push(entry);
                    proof {
                        lemma_covers_push(prev, entry);
                        assert forall|k: int| 0 <= k < raw@.len() implies entry_sound(
                            #[trigger] raw@[k],
                            dl,
                        ) by {
                            if k < prev.len() {
                                assert(raw@[k] == prev[k]);
                            }
                        }
                        assert(raw@[raw@.len() - 1].residue@ == double_residue(
                            dl,
                            i as int,
                            j as int,
                            dv1,
                            dv2,
                        ));
                        assert(covers(
                            raw@,
                            double_residue(dl, i as int, j as int, dv1, dv2),
                        ));
                    }
                    dv2 += 1;
                }
                dv1 += 1;
            }
            j += 1;
        }
        i += 1;
    }
    let ghost raws = raw@;
    let sorted = sort_entries(raw);
    let t = dedup_entries(sorted);
    proof {
        broadcast use vstd::seq_lib::group_to_multiset_ensures;

        lemma_covers_multiset(raws, sorted@);
        // Every final entry carries the views of some raw entry, so it is
        // sound; its diffs are nonzero by soundness.
        assert forall|k: int| 0 <= k < t@.len() implies entry_sound(#[trigger] t@[k], dl) by {
            assert(from_entries(t@[k], sorted@));
            let w = choose|k2: int| 0 <= k2 < sorted@.len() && entry_like(t@[k], sorted@[k2]);
            let x = sorted@[w];
            assert(sorted@.contains(x));
            assert(sorted@.to_multiset().count(x) > 0);
            assert(raws.contains(x));
            let w2 = choose|k2: int| 0 <= k2 < raws.len() && raws[k2] == x;
            assert(entry_sound(raws[w2], dl));
            lemma_sound_like(t@[k], x, dl);
        }
        assert forall|i2: int, d: u8| 0 <= i2 < dl - 13 && 1 <= d < 32 implies covers(
            t@,
            #[trigger] single_residue(dl, i2, d),
        ) by {
            assert(covers(sorted@, single_residue(dl, i2, d)));
            let w = choose|k: int|
                0 <= k < sorted@.len() && #[trigger] sorted@[k].residue@ == single_residue(
                    dl,
                    i2,
                    d,
                );
            assert(covers(t@, sorted@[w].residue@));
        }
        assert forall|i2: int, j2: int, d1: u8, d2: u8|
            0 <= i2 < j2 < dl && 1 <= d1 < 32 && 1 <= d2 < 32 implies covers(
            t@,
            #[trigger] double_residue(dl, i2, j2, d1, d2),
        ) by {
            assert(covers(sorted@, double_residue(dl, i2, j2, d1, d2)));
            let w = choose|k: int|
                0 <= k < sorted@.len() && #[trigger] sorted@[k].residue@ == double_residue(
                    dl,
                    i2,
                    j2,
                    d1,
                    d2,
                );
            assert(covers(t@, sorted@[w].residue@));
        }
        assert forall|k: int, l: int|
            0 <= k < t@.len() && 0 <= l < t@[k].errors@.len() implies #[trigger] t@[k].errors@[l].diff@
            != 0 by {
            assert(entry_sound(t@[k], dl));
        }
    }
    t
}

/// An explicit copy of an entry.
fn clone_entry(e: &TableEntry) -> (r: TableEntry)
    ensures
        r.residue@ == e.residue@,
        r.errors@ == e.errors@,
{
    let mut errors: Vec<CorrectionError> = Vec::new();
    let mut k: usize = 0;
    while k < e.errors.len()
        invariant
            k <= e.errors@.len(),
            errors@ == e.errors@.take(k as int),
        decreases e.errors@.len() - k,
    {
        let ce = e.errors[k];
        proof {
            assert(e.errors@.take(k as int + 1) =~= e.errors@.take(k as int).push(
                e.errors@[k as int],
            ));
        }
        errors.push(ce);
        k += 1;
    }
    proof {
        assert(e.errors@.take(e.errors@.len() as int) =~= e.errors@);
    }
    TableEntry { residue: e.residue.clone(), errors }
}

} // verus!
