//! Streaming BCH-style checksum engine.
//!
//! The engine performs long division of the input polynomial over GF(32)
//! by a fixed generator, one coefficient at a time, and compares the final
//! remainder against a fixed target residue.

use vstd::prelude::*;
use vstd::string::StrSliceExecFns;

use crate::Case;
use crate::Error;
use crate::field;
use crate::field::Fe;
use crate::field::fe_add_v;
use crate::field::fe_mul_v;
use crate::field::bech32_value;
use crate::field::is_ascii_c;
use crate::field::is_lower_letter;
use crate::field::is_upper_letter;
use crate::field::lemma_add_closed;
use crate::field::lemma_mul_closed;

verus! {

/// Generator coefficients of the short checksum, highest order first.
pub open spec fn short_gen() -> Seq<u8> {
    seq![16u8, 16, 24, 27, 31, 25, 25, 25, 0, 8, 17, 27]
}

/// Generator coefficients of the long checksum, highest order first.
pub open spec fn long_gen() -> Seq<u8> {
    seq![23u8, 4, 22, 5, 6, 21, 23, 6, 21, 25, 9, 26, 10, 15]
}

/// Target residue of the short checksum: the tag `SECRETSHARE32` read as
/// bech32 characters.
pub open spec fn short_target() -> Seq<u8> {
    seq![16u8, 25, 24, 3, 25, 11, 16, 23, 29, 3, 25, 17, 10]
}

/// Target residue of the long checksum: the tag `SECRETSHARE32EX` read as
/// bech32 characters.
pub open spec fn long_target() -> Seq<u8> {
    seq![16u8, 25, 24, 3, 25, 11, 16, 23, 29, 3, 25, 17, 10, 25, 6]
}

/// The initial residue: all zeros except a one in the highest position.
pub open spec fn init_residue(n: int) -> Seq<u8> {
    Seq::new(n as nat, |i: int| if i == n - 1 { 1u8 } else { 0u8 })
}

/// Every entry of the sequence is a field element.
pub open spec fn all_fe(s: Seq<u8>) -> bool {
    forall|i: int| 0 <= i < s.len() ==> s[i] < 32
}

/// One update step of the polynomial remainder: shift the residue up one
/// position, insert the new coefficient at the bottom, and reduce the
/// coefficient that fell off the top by the generator.
pub open spec fn poly_step(g: Seq<u8>, r: Seq<u8>, e: u8) -> Seq<u8> {
    let xn = r[r.len() - 1];
    Seq::new(
        r.len(),
        |i: int|
            if i == 0 {
                fe_add_v(e, fe_mul_v(g[0], xn))
            } else if i < g.len() {
                fe_add_v(r[i - 1], fe_mul_v(g[i], xn))
            } else {
                r[i - 1]
            },
    )
}

/// The residue after feeding a whole sequence of coefficients.
pub open spec fn poly_run(g: Seq<u8>, r: Seq<u8>, es: Seq<u8>) -> Seq<u8>
    decreases es.len(),
{
    if es.len() == 0 {
        r
    } else {
        poly_run(g, poly_step(g, r, es[0]), es.drop_first())
    }
}

/// The observed case after one character: the first ASCII letter fixes the
/// case; digits and other characters leave it open.
pub open spec fn case_after(case0: Option<Case>, c: char) -> Option<Case> {
    match case0 {
        Some(k) => Some(k),
        None => if is_lower_letter(c) {
            Some(Case::Lower)
        } else if is_upper_letter(c) {
            Some(Case::Upper)
        } else {
            None
        },
    }
}

/// Whether a character's case conflicts with the case observed so far.
pub open spec fn case_conflict(case0: Option<Case>, c: char) -> bool {
    match case0 {
        Some(Case::Lower) => is_upper_letter(c),
        Some(Case::Upper) => is_lower_letter(c),
        None => false,
    }
}

/// The outcome of feeding one data character: an error if any, the
/// observed case, and the residue afterwards.
pub open spec fn spec_feed1(case0: Option<Case>, g: Seq<u8>, r: Seq<u8>, c: char) -> (
    Option<Error>,
    Option<Case>,
    Seq<u8>,
) {
    if !is_ascii_c(c) {
        (Some(Error::InvalidChar(c)), case0, r)
    } else if case_conflict(case0, c) {
        (
            Some(
                Error::InvalidCase(
                    match case0 {
                        Some(k) => k,
                        None => Case::Lower,
                    },
                    c,
                ),
            ),
            case0,
            r,
        )
    } else {
        let case1 = case_after(case0, c);
        match bech32_value(c) {
            None => (Some(Error::Field(field::Error::InvalidChar(c))), case1, r),
            Some(v) => (None, case1, poly_step(g, r, v)),
        }
    }
}

/// The outcome of feeding a sequence of data characters, stopping at the
/// first error.
pub open spec fn spec_feed(case0: Option<Case>, g: Seq<u8>, r: Seq<u8>, cs: Seq<char>) -> (
    Option<Error>,
    Option<Case>,
    Seq<u8>,
)
    decreases cs.len(),
{
    if cs.len() == 0 {
        (None, case0, r)
    } else {
        let (e, c1, r1) = spec_feed1(case0, g, r, cs[0]);
        if e is Some {
            (e, c1, r1)
        } else {
            spec_feed(c1, g, r1, cs.drop_first())
        }
    }
}

/// The outcome of feeding a human-readable prefix: each character expands
/// to its high bits, a zero, and its low five bits.
pub open spec fn spec_feed_hrp(case0: Option<Case>, g: Seq<u8>, r: Seq<u8>, cs: Seq<char>) -> (
    Option<Error>,
    Option<Case>,
    Seq<u8>,
)
    decreases cs.len(),
{
    if cs.len() == 0 {
        (None, case0, r)
    } else {
        let c = cs[0];
        if !is_ascii_c(c) {
            (Some(Error::InvalidChar(c)), case0, r)
        } else if case_conflict(case0, c) {
            (
                Some(
                    Error::InvalidCase(
                        match case0 {
                            Some(k) => k,
                            None => Case::Lower,
                        },
                        c,
                    ),
                ),
                case0,
                r,
            )
        } else {
            let hi = ((c as u32) >> 5) as u8;
            let lo = ((c as u32) & 0x1f) as u8;
            let r3 = poly_step(g, poly_step(g, poly_step(g, r, hi), 0), lo);
            spec_feed_hrp(case_after(case0, c), g, r3, cs.drop_first())
        }
    }
}

/// The four constant tables are made of field elements.
pub proof fn lemma_tables_fe()
    ensures
        all_fe(short_gen()),
        all_fe(long_gen()),
        all_fe(short_target()),
        all_fe(long_target()),
        all_fe(init_residue(13)),
        all_fe(init_residue(15)),
{
    assert forall|i: int| 0 <= i < short_gen().len() implies short_gen()[i] < 32 by {
        assert(short_gen()[i] < 32);
    }
    assert forall|i: int| 0 <= i < long_gen().len() implies long_gen()[i] < 32 by {
        assert(long_gen()[i] < 32);
    }
    assert forall|i: int| 0 <= i < short_target().len() implies short_target()[i] < 32 by {
        assert(short_target()[i] < 32);
    }
    assert forall|i: int| 0 <= i < long_target().len() implies long_target()[i] < 32 by {
        assert(long_target()[i] < 32);
    }
}

/// A polynomial step on field elements yields field elements.
pub proof fn lemma_poly_step_fe(g: Seq<u8>, r: Seq<u8>, e: u8)
    requires
        all_fe(g),
        all_fe(r),
        e < 32,
        g.len() >= 1,
        r.len() == g.len() + 1,
    ensures
        all_fe(poly_step(g, r, e)),
        poly_step(g, r, e).len() == r.len(),
{
    let xn = r[r.len() - 1];
    let out = poly_step(g, r, e);
    assert forall|i: int| 0 <= i < out.len() implies out[i] < 32 by {
        if i == 0 {
            lemma_mul_closed(g[0], xn);
            lemma_add_closed(e, fe_mul_v(g[0], xn));
        } else if i < g.len() {
            lemma_mul_closed(g[i], xn);
            lemma_add_closed(r[i - 1], fe_mul_v(g[i], xn));
        }
    }
}

/// An engine which consumes one GF(32) character at a time, and produces
/// a residue modulo some generator.
pub struct Engine {
    case: Option<Case>,
    generator: Vec<Fe>,
    residue: Vec<Fe>,
    target: Vec<Fe>,
}

impl Engine {
    /// The case observed so far.
    pub closed spec fn spec_case(&self) -> Option<Case> {
        self.case
    }

    /// The generator coefficients as numeric values.
    pub closed spec fn gen_vals(&self) -> Seq<u8> {
        self.generator@.map_values(|f: Fe| f@)
    }

    /// The current residue as numeric values.
    pub closed spec fn res_vals(&self) -> Seq<u8> {
        self.residue@.map_values(|f: Fe| f@)
    }

    /// The target residue as numeric values.
    pub closed spec fn tgt_vals(&self) -> Seq<u8> {
        self.target@.map_values(|f: Fe| f@)
    }

    /// Whether this is the short-checksum engine.
    pub open spec fn is_short(&self) -> bool {
        self.gen_vals() == short_gen() && self.tgt_vals() == short_target()
    }

    /// Whether this is the long-checksum engine.
    pub open spec fn is_long(&self) -> bool {
        self.gen_vals() == long_gen() && self.tgt_vals() == long_target()
    }

    /// Well-formedness: one of the two checksums, with a residue one longer
    /// than the generator, all entries field elements.
    pub open spec fn wf(&self) -> bool {
        &&& (self.is_short() || self.is_long())
        &&& self.res_vals().len() == self.gen_vals().len() + 1
        &&& all_fe(self.res_vals())
    }

    /// An engine which computes the normal codex32 checksum.
    #[verifier::loop_isolation(false)]
    pub fn new_codex32_short() -> (r: Engine)
        ensures
            r.wf(),
            r.is_short(),
            r.spec_case() is None,
            r.res_vals() == init_residue(13),
    {
        let mut generator: Vec<Fe> = Vec::new();
        generator.push(Fe::new(16));
        generator.push(Fe::new(16));
        generator.push(Fe::new(24));
        generator.push(Fe::new(27));
        generator.push(Fe::new(31));
        generator.push(Fe::new(25));
        generator.push(Fe::new(25));
        generator.push(Fe::new(25));
        generator.push(Fe::new(0));
        generator.push(Fe::new(8));
        generator.push(Fe::new(17));
        generator.push(Fe::new(27));
        let mut residue: Vec<Fe> = Vec::new();
        let mut k: usize = 0;
        while k < 12
            invariant
                k <= 12,
                residue@.len() == k as int,
                forall|i: int| 0 <= i < k as int ==> #[trigger] residue@[i]@ == 0,
            decreases 12 - k,
        {
            residue.push(Fe::new(0));
            k += 1;
        }
        residue.push(Fe::new(1));
        let target = short_target_vec();
        let r = Engine { case: None, generator, residue, target };
        proof {
            assert(r.gen_vals() =~= short_gen());
            assert(r.res_vals() =~= init_residue(13));
        }
        r
    }

    /// An engine which computes the "long" codex32 checksum.
    #[verifier::loop_isolation(false)]
    pub fn new_codex32_long() -> (r: Engine)
        ensures
            r.wf(),
            r.is_long(),
            r.spec_case() is None,
            r.res_vals() == init_residue(15),
    {
        let mut generator: Vec<Fe> = Vec::new();
        generator.push(Fe::new(23));
        generator.push(Fe::new(4));
        generator.push(Fe::new(22));
        generator.push(Fe::new(5));
        generator.push(Fe::new(6));
        generator.push(Fe::new(21));
        generator.push(Fe::new(23));
        generator.push(Fe::new(6));
        generator.push(Fe::new(21));
        generator.push(Fe::new(25));
        generator.push(Fe::new(9));
        generator.push(Fe::new(26));
        generator.push(Fe::new(10));
        generator.push(Fe::new(15));
        let mut residue: Vec<Fe> = Vec::new();
        let mut k: usize = 0;
        while k < 14
            invariant
                k <= 14,
                residue@.len() == k as int,
                forall|i: int| 0 <= i < k as int ==> #[trigger] residue@[i]@ == 0,
            decreases 14 - k,
        {
            residue.push(Fe::new(0));
            k += 1;
        }
        residue.push(Fe::new(1));
        let mut target: Vec<Fe> = Vec::new();
        target.push(Fe::new(16));
        target.push(Fe::new(25));
        target.push(Fe::new(24));
        target.push(Fe::new(3));
        target.push(Fe::new(25));
        target.push(Fe::new(11));
        target.push(Fe::new(16));
        target.push(Fe::new(23));
        target.push(Fe::new(29));
        target.push(Fe::new(3));
        target.push(Fe::new(25));
        target.push(Fe::new(17));
        target.push(Fe::new(10));
        target.push(Fe::new(25));
        target.push(Fe::new(6));
        let r = Engine { case: None, generator, residue, target };
        proof {
            assert(r.gen_vals() =~= long_gen());
            assert(r.tgt_vals() =~= long_target());
            assert(r.res_vals() =~= init_residue(15));
        }
        r
    }

    /// Extracts the residue from a checksum engine.
    pub fn into_residue(self) -> (r: Vec<Fe>)
        ensures
            r@.map_values(|f: Fe| f@) == self.res_vals(),
    {
        self.residue
    }

    /// Determines whether the residue matches the target value for the
    /// checksum.
    #[verifier::loop_isolation(false)]
    pub fn is_valid(&self) -> (r: bool)
        requires
            self.wf(),
        ensures
            r == (self.res_vals() == self.tgt_vals()),
    {
        if self.residue.len() != self.target.len() {
            return false;
        }
        let n = self.residue.len();
        let mut i: usize = 0;
        while i < n
            invariant
                i <= n,
                n == self.residue@.len(),
                n == self.target@.len(),
                forall|j: int| 0 <= j < i as int ==> self.res_vals()[j] == self.tgt_vals()[j],
            decreases n - i,
        {
            let a = self.residue[i];
            let b = self.target[i];
            if a.value() != b.value() {
                proof {
                    assert(self.res_vals()[i as int] != self.tgt_vals()[i as int]);
                }
                return false;
            }
            i += 1;
        }
        proof {
            assert(self.res_vals() =~= self.tgt_vals());
        }
        true
    }

    /// Sets the residue to all zeros, so that later input computes a raw
    /// syndrome rather than a checksum.
    #[verifier::loop_isolation(false)]
    pub fn force_residue_to_zero(&mut self)
        requires
            old(self).wf(),
        ensures
            final(self).wf(),
            final(self).gen_vals() == old(self).gen_vals(),
            final(self).tgt_vals() == old(self).tgt_vals(),
            final(self).spec_case() == old(self).spec_case(),
            final(self).res_vals() == Seq::new(old(self).res_vals().len(), |i: int| 0u8),
    {
        let n = self.residue.len();
        let mut i: usize = 0;
        while i < n
            invariant
                i <= n,
                n == self.residue@.len(),
                self.generator == old(self).generator,
                self.target == old(self).target,
                self.case == old(self).case,
                forall|j: int| 0 <= j < i as int ==> self.res_vals()[j] == 0,
                forall|j: int|
                    (i as int) <= j && j < n as int ==> self.res_vals()[j] == old(self).res_vals()[j],
            decreases n - i,
        {
            let ghost prevres = self.res_vals();
            self.residue[i] = Fe::new(0);
            proof {
                assert(self.res_vals() =~= prevres.update(i as int, 0u8));
            }
            i += 1;
        }
        proof {
            assert(self.res_vals() =~= Seq::new(old(self).res_vals().len(), |i: int| 0u8));
        }
    }

    /// Adds a single field element to the checksum engine.
    ///
    /// This is where the real magic happens: the residue is shifted up one
    /// position (in descending order, so nothing is overwritten before it
    /// is read), the new element enters at the bottom, and the coefficient
    /// that left at the top is reduced by the generator.
    #[verifier::loop_isolation(false)]
    pub fn input_fe(&mut self, e: Fe)
        requires
            old(self).wf(),
            e@ < 32,
        ensures
            final(self).wf(),
            final(self).gen_vals() == old(self).gen_vals(),
            final(self).tgt_vals() == old(self).tgt_vals(),
            final(self).spec_case() == old(self).spec_case(),
            final(self).res_vals() == poly_step(old(self).gen_vals(), old(self).res_vals(), e@),
    {
        let n = self.residue.len();
        let xn = self.residue[n - 1];
        // Shift x^0 through x^{n-2} up one position, in descending order.
        let mut j: usize = n - 1;
        while j > 0
            invariant
                j < n,
                n == self.residue@.len(),
                self.generator == old(self).generator,
                self.target == old(self).target,
                self.case == old(self).case,
                xn@ == old(self).res_vals()[n - 1],
                forall|i: int| 0 <= i <= j as int ==> self.res_vals()[i] == old(self).res_vals()[i],
                forall|i: int|
                    (j as int) < i && i < n as int ==> self.res_vals()[i] == old(self).res_vals()[i
                        - 1],
            decreases j,
        {
            let ghost prevres = self.res_vals();
            let t = self.residue[j - 1];
            self.residue[j] = t;
            proof {
                assert(self.res_vals() =~= prevres.update(j as int, prevres[j as int - 1]));
            }
            j -= 1;
        }
        let ghost prevres = self.res_vals();
        self.residue[0] = e;
        proof {
            assert(self.res_vals() =~= prevres.update(0, e@));
            assert(forall|i: int|
                0 < i < n as int ==> self.res_vals()[i] == old(self).res_vals()[i - 1]);
            assert(self.res_vals()[0] == e@);
            lemma_tables_fe();
        }
        // Reduce the coefficient of x^n modulo the generator.
        let glen = self.generator.len();
        let ghost shifted = self.res_vals();
        let mut i: usize = 0;
        while i < glen
            invariant
                i <= glen,
                glen == self.generator@.len(),
                n == self.residue@.len(),
                n == glen + 1,
                self.generator == old(self).generator,
                self.target == old(self).target,
                self.case == old(self).case,
                xn@ == old(self).res_vals()[n - 1],
                xn@ < 32,
                all_fe(self.gen_vals()),
                all_fe(shifted),
                forall|k: int|
                    0 <= k < i as int ==> self.res_vals()[k] == fe_add_v(
                        shifted[k],
                        fe_mul_v(self.gen_vals()[k], xn@),
                    ),
                forall|k: int| (i as int) <= k && k < n as int ==> self.res_vals()[k] == shifted[k],
            decreases glen - i,
        {
            let gi = self.generator[i];
            proof {
                assert(gi@ == self.gen_vals()[i as int]);
            }
            let t = gi.mul(xn);
            let cur = self.residue[i];
            proof {
                assert(cur@ == self.res_vals()[i as int]);
                assert(cur@ == shifted[i as int]);
                assert(cur@ < 32);
            }
            let ghost prevres = self.res_vals();
            self.residue[i] = cur.add(t);
            proof {
                assert(self.res_vals() =~= prevres.update(
                    i as int,
                    fe_add_v(prevres[i as int], fe_mul_v(self.gen_vals()[i as int], xn@)),
                ));
            }
            i += 1;
        }
        proof {
            let out = poly_step(old(self).gen_vals(), old(self).res_vals(), e@);
            assert forall|k: int| 0 <= k < n as int implies self.res_vals()[k] == out[k] by {
                if k == 0 {
                    assert(shifted[0] == e@);
                } else if k < glen as int {
                    assert(shifted[k] == old(self).res_vals()[k - 1]);
                } else {
                    assert(self.res_vals()[k] == shifted[k]);
                }
            }
            assert(self.res_vals() =~= out);
            lemma_poly_step_fe(old(self).gen_vals(), old(self).res_vals(), e@);
        }
    }

    /// Helper function to check that the whole input has consistent case.
    fn set_check_case(&mut self, c: char) -> (res: Result<(), Error>)
        requires
            old(self).wf(),
        ensures
            final(self).wf(),
            final(self).gen_vals() == old(self).gen_vals(),
            final(self).tgt_vals() == old(self).tgt_vals(),
            final(self).res_vals() == old(self).res_vals(),
            (match res {
                Ok(()) => is_ascii_c(c) && !case_conflict(old(self).spec_case(), c)
                    && final(self).spec_case() == case_after(old(self).spec_case(), c),
                Err(Error::InvalidChar(c2)) => c2 == c && !is_ascii_c(c) && final(self).spec_case()
                    == old(self).spec_case(),
                Err(Error::InvalidCase(k, c2)) => c2 == c && is_ascii_c(c) && case_conflict(
                    old(self).spec_case(),
                    c,
                ) && Some(k) == old(self).spec_case() && final(self).spec_case()
                    == old(self).spec_case(),
                _ => false,
            }),
    {
        let u = c as u32;
        if u >= 128 {
            return Err(Error::InvalidChar(c));
        }
        let low = 97 <= u && u <= 122;
        let up = 65 <= u && u <= 90;
        match self.case {
            Some(Case::Lower) => if up {
                Err(Error::InvalidCase(Case::Lower, c))
            } else {
                Ok(())
            },
            Some(Case::Upper) => if low {
                Err(Error::InvalidCase(Case::Upper, c))
            } else {
                Ok(())
            },
            None => {
                if low {
                    self.case = Some(Case::Lower);
                } else if up {
                    self.case = Some(Case::Upper);
                }
                Ok(())
            },
        }
    }

    /// Adds a single character to the checksum engine.
    #[verifier::loop_isolation(false)]
    pub fn input_char(&mut self, c: char) -> (res: Result<(), Error>)
        requires
            old(self).wf(),
        ensures
            final(self).wf(),
            final(self).gen_vals() == old(self).gen_vals(),
            final(self).tgt_vals() == old(self).tgt_vals(),
            ({
                let (e, c1, r1) = spec_feed1(
                    old(self).spec_case(),
                    old(self).gen_vals(),
                    old(self).res_vals(),
                    c,
                );
                &&& final(self).spec_case() == c1
                &&& final(self).res_vals() == r1
                &&& (match res {
                    Ok(()) => e is None,
                    Err(er) => e == Some(er),
                })
            }),
    {
        match self.set_check_case(c) {
            Err(e) => {
                return Err(e);
            },
            Ok(()) => {},
        }
        match Fe::from_char(c) {
            Err(e) => Err(Error::Field(e)),
            Ok(f) => {
                self.input_fe(f);
                Ok(())
            },
        }
    }

    /// Adds an entire string to the engine, counting each character as a
    /// data character (not an HRP).
    #[verifier::loop_isolation(false)]
    pub fn input_data_str(&mut self, s: &str) -> (res: Result<(), Error>)
        requires
            old(self).wf(),
        ensures
            final(self).wf(),
            final(self).gen_vals() == old(self).gen_vals(),
            final(self).tgt_vals() == old(self).tgt_vals(),
            ({
                let (e, c1, r1) = spec_feed(
                    old(self).spec_case(),
                    old(self).gen_vals(),
                    old(self).res_vals(),
                    s@,
                );
                &&& final(self).spec_case() == c1
                &&& final(self).res_vals() == r1
                &&& (match res {
                    Ok(()) => e is None,
                    Err(er) => e == Some(er),
                })
            }),
    {
        let ghost g = old(self).gen_vals();
        let n = s.unicode_len();
        proof {
            assert(s@.skip(0) =~= s@);
        }
        let mut k: usize = 0;
        while k < n
            invariant
                k <= n,
                n == s@.len(),
                self.wf(),
                self.gen_vals() == g,
                self.tgt_vals() == old(self).tgt_vals(),
                spec_feed(old(self).spec_case(), g, old(self).res_vals(), s@) == spec_feed(
                    self.spec_case(),
                    g,
                    self.res_vals(),
                    s@.skip(k as int),
                ),
            decreases n - k,
        {
            let c = s.get_char(k);
            proof {
                assert(s@.skip(k as int)[0] == s@[k as int]);
                assert(s@.skip(k as int).drop_first() =~= s@.skip(k as int + 1));
            }
            match self.input_char(c) {
                Err(e) => {
                    return Err(e);
                },
                Ok(()) => {},
            }
            k += 1;
        }
        proof {
            assert(s@.skip(n as int) =~= Seq::<char>::empty());
        }
        Ok(())
    }

    /// Initializes the checksum engine by loading an HRP into it.
    #[verifier::loop_isolation(false)]
    pub fn input_hrp(&mut self, hrp: &str) -> (res: Result<(), Error>)
        requires
            old(self).wf(),
        ensures
            final(self).wf(),
            final(self).gen_vals() == old(self).gen_vals(),
            final(self).tgt_vals() == old(self).tgt_vals(),
            ({
                let (e, c1, r1) = spec_feed_hrp(
                    old(self).spec_case(),
                    old(self).gen_vals(),
                    old(self).res_vals(),
                    hrp@,
                );
                &&& final(self).spec_case() == c1
                &&& final(self).res_vals() == r1
                &&& (match res {
                    Ok(()) => e is None,
                    Err(er) => e == Some(er),
                })
            }),
    {
        let ghost g = old(self).gen_vals();
        let n = hrp.unicode_len();
        proof {
            assert(hrp@.skip(0) =~= hrp@);
        }
        let mut k: usize = 0;
        while k < n
            invariant
                k <= n,
                n == hrp@.len(),
                self.wf(),
                self.gen_vals() == g,
                self.tgt_vals() == old(self).tgt_vals(),
                spec_feed_hrp(old(self).spec_case(), g, old(self).res_vals(), hrp@) == spec_feed_hrp(
                    self.spec_case(),
                    g,
                    self.res_vals(),
                    hrp@.skip(k as int),
                ),
            decreases n - k,
        {
            let c = hrp.get_char(k);
            proof {
                assert(hrp@.skip(k as int)[0] == hrp@[k as int]);
                assert(hrp@.skip(k as int).drop_first() =~= hrp@.skip(k as int + 1));
            }
            match self.set_check_case(c) {
                Err(e) => {
                    return Err(e);
                },
                Ok(()) => {},
            }
            let u = c as u32;
            proof {
                assert(u < 128 ==> (u >> 5) < 32 && (u & 0x1f) < 32) by (bit_vector);
            }
            match Fe::from_int(u >> 5) {
                Ok(f) => {
                    self.input_fe(f);
                },
                Err(e) => {
                    return Err(Error::Field(e));
                },
            }
            self.input_fe(Fe::new(0));
            match Fe::from_int(u & 0x1f) {
                Ok(f) => {
                    self.input_fe(f);
                },
                Err(e) => {
                    return Err(Error::Field(e));
                },
            }
            k += 1;
        }
        proof {
            assert(hrp@.skip(n as int) =~= Seq::<char>::empty());
        }
        Ok(())
    }
}

/// The short target tag as a vector of field elements.
pub(crate) fn short_target_vec() -> (r: Vec<Fe>)
    ensures
        r@.map_values(|f: Fe| f@) == short_target(),
{
    let mut target: Vec<Fe> = Vec::new();
    target.push(Fe::new(16));
    target.push(Fe::new(25));
    target.push(Fe::new(24));
    target.push(Fe::new(3));
    target.push(Fe::new(25));
    target.push(Fe::new(11));
    target.push(Fe::new(16));
    target.push(Fe::new(23));
    target.push(Fe::new(29));
    target.push(Fe::new(3));
    target.push(Fe::new(25));
    target.push(Fe::new(17));
    target.push(Fe::new(10));
    proof {
        assert(target@.map_values(|f: Fe| f@) =~= short_target());
    }
    target
}

} // verus!
