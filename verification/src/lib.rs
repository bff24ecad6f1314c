//! codex32 checksum core.
//!
//! Checksummed strings over the bech32 alphabet: GF(32) arithmetic, a
//! streaming polynomial-remainder engine, and a facade for building and
//! validating whole codex32 strings.

use vstd::prelude::*;
use vstd::string::StrSliceExecFns;

pub mod checksum;
pub mod correction;
pub mod field;
pub mod field_laws;

pub use checksum::Engine;
pub use field::Fe;

verus! {

/// Errors arising while building or validating a whole codex32 string.
#[derive(Debug, PartialEq, Eq)]
pub enum Error {
    /// Tried a codex32 string of an illegal length.
    InvalidLength(usize),
    /// Tried to decode a character which is not ASCII.
    InvalidChar(char),
    /// Tried to decode a character whose case conflicts with the case
    /// observed earlier in the same string.
    InvalidCase(Case, char),
    /// The string's residue does not match the target of its checksum.
    InvalidChecksum {
        /// Which checksum was used, "long" or "short".
        checksum: &'static str,
        /// The string with the bad checksum.
        string: String,
    },
    /// Error related to a single bech32 character.
    Field(field::Error),
}

/// The index of the rightmost `1` in the string, or `-1` if there is none.
pub open spec fn last_sep(cs: Seq<char>) -> int
    decreases cs.len(),
{
    if cs.len() == 0 {
        -1
    } else if cs[cs.len() - 1] == '1' {
        cs.len() - 1
    } else {
        last_sep(cs.drop_last())
    }
}

/// The human-readable prefix: everything before the rightmost `1`, or the
/// empty sequence if there is no separator.
pub open spec fn spec_hrp(cs: Seq<char>) -> Seq<char> {
    if last_sep(cs) >= 0 {
        cs.subrange(0, last_sep(cs))
    } else {
        Seq::empty()
    }
}

/// The data part: everything after the rightmost `1`, or the whole string
/// if there is no separator.
pub open spec fn spec_data(cs: Seq<char>) -> Seq<char> {
    if last_sep(cs) >= 0 {
        cs.subrange(last_sep(cs) + 1, cs.len() as int)
    } else {
        cs
    }
}

/// `last_sep` points at the rightmost separator: it is a `1`, and no `1`
/// occurs after it.
pub proof fn lemma_last_sep(cs: Seq<char>)
    ensures
        -1 <= last_sep(cs) < cs.len(),
        last_sep(cs) >= 0 ==> cs[last_sep(cs)] == '1',
        forall|j: int| last_sep(cs) < j && j < cs.len() ==> cs[j] != '1',
    decreases cs.len(),
{
    if cs.len() > 0 && cs[cs.len() - 1] != '1' {
        lemma_last_sep(cs.drop_last());
        assert forall|j: int| last_sep(cs) < j && j < cs.len() implies cs[j] != '1' by {
            if j < cs.len() - 1 {
                assert(cs.drop_last()[j] == cs[j]);
            }
        }
    }
}

/// Whether a total length selects the short checksum.
pub open spec fn spec_is_short_len(n: int) -> bool {
    0 < n < 94
}

/// Whether a total length selects the long checksum.
pub open spec fn spec_is_long_len(n: int) -> bool {
    95 < n < 125
}

/// The target residue of the selected checksum.
pub open spec fn spec_target(long: bool) -> Seq<u8> {
    if long {
        checksum::long_target()
    } else {
        checksum::short_target()
    }
}

/// The outcome of feeding a whole string through the selected engine: the
/// first error, if any, and the final residue.
pub open spec fn spec_run(cs: Seq<char>, long: bool) -> (Option<Error>, Seq<u8>) {
    let g = if long {
        checksum::long_gen()
    } else {
        checksum::short_gen()
    };
    let n = if long {
        15int
    } else {
        13int
    };
    let (e1, c1, r1) = checksum::spec_feed_hrp(None, g, checksum::init_residue(n), spec_hrp(cs));
    if e1 is Some {
        (e1, r1)
    } else {
        let (e2, c2, r2) = checksum::spec_feed(c1, g, r1, spec_data(cs));
        (e2, r2)
    }
}

/// Whether a string is a valid codex32 string: its length selects a
/// checksum, every character feeds cleanly, and the residue hits the
/// target.
pub open spec fn spec_codex32_valid(cs: Seq<char>) -> bool {
    &&& (spec_is_short_len(cs.len() as int) || spec_is_long_len(cs.len() as int))
    &&& ({
        let long = spec_is_long_len(cs.len() as int);
        let (e, r) = spec_run(cs, long);
        e is None && r == spec_target(long)
    })
}

/// The lowercase rendering of a residue.
pub open spec fn rendered_lower(r: Seq<u8>) -> Seq<char> {
    Seq::new(r.len(), |i: int| field::char_of(r[i]))
}

/// A codex32 string, as validated or built by its constructors.
#[derive(Clone, Debug, PartialEq, Eq, Hash)]
pub struct Codex32String(String);

impl View for Codex32String {
    type V = Seq<char>;

    closed spec fn view(&self) -> Seq<char> {
        self.0@
    }
}

impl Codex32String {
    /// The stored string, exactly as validated or built.
    pub fn as_str(&self) -> (r: &str)
        ensures
            r@ == self@,
    {
        self.0.as_str()
    }

    /// Construct a codex32 string from an already-checksummed string.
    pub fn from_string(s: String) -> (res: Result<Codex32String, Error>)
        ensures
            (res matches Ok(c) ==> spec_codex32_valid(s@) && c@ == s@),
            spec_codex32_valid(s@) ==> res is Ok,
            ({
                let n = s@.len() as int;
                let long = spec_is_long_len(n);
                if !(spec_is_short_len(n) || long) {
                    res == Err::<Codex32String, Error>(Error::InvalidLength(s@.len() as usize))
                } else {
                    match spec_run(s@, long).0 {
                        Some(er) => res == Err::<Codex32String, Error>(er),
                        None => if spec_run(s@, long).1 == spec_target(long) {
                            res is Ok
                        } else {
                            res matches Err(e2) && e2 matches Error::InvalidChecksum {
                                checksum: ck,
                                string: st,
                            } && st@ == s@ && ck@ == (if long {
                                "long"@
                            } else {
                                "short"@
                            })
                        },
                    }
                }
            }),
    {
        let n = s.as_str().unicode_len();
        let long: bool;
        if n > 0 && n < 94 {
            long = false;
        } else if n > 95 && n < 125 {
            long = true;
        } else {
            return Err(Error::InvalidLength(n));
        }
        let (hrp, data) = split_at_separator(s.as_str());
        let mut engine = if long {
            checksum::Engine::new_codex32_long()
        } else {
            checksum::Engine::new_codex32_short()
        };
        match engine.input_hrp(hrp) {
            Err(e) => {
                return Err(e);
            },
            Ok(()) => {},
        }
        match engine.input_data_str(data) {
            Err(e) => {
                return Err(e);
            },
            Ok(()) => {},
        }
        if !engine.is_valid() {
            return Err(
                Error::InvalidChecksum {
                    checksum: if long {
                        "long"
                    } else {
                        "short"
                    },
                    string: s,
                },
            );
        }
        Ok(Codex32String(s))
    }

    /// Construct a codex32 string from a not-yet-checksummed string: the
    /// short engine's residue over the HRP and data is appended, one
    /// lowercase character per residue element.
    #[verifier::loop_isolation(false)]
    pub fn from_unchecksummed_string(s: String) -> (res: Result<Codex32String, Error>)
        ensures
            (match res {
                Ok(c) => spec_run(s@, false).0 is None && c@ == s@ + rendered_lower(
                    spec_run(s@, false).1,
                ),
                Err(e) => spec_run(s@, false).0 == Some(e),
            }),
    {
        let ghost s0 = s@;
        let (hrp, data) = split_at_separator(s.as_str());
        let mut engine = checksum::Engine::new_codex32_short();
        match engine.input_hrp(hrp) {
            Err(e) => {
                return Err(e);
            },
            Ok(()) => {},
        }
        match engine.input_data_str(data) {
            Err(e) => {
                return Err(e);
            },
            Ok(()) => {},
        }
        let ghost vals = engine.res_vals();
        let residue = engine.into_residue();
        let mut out = s;
        let k = residue.len();
        let mut i: usize = 0;
        while i < k
            invariant
                i <= k,
                k == residue@.len(),
                residue@.map_values(|f: Fe| f@) == vals,
                checksum::all_fe(vals),
                out@ == s0 + rendered_lower(vals).take(i as int),
            decreases k - i,
        {
            let f = residue[i];
            proof {
                assert(f@ == vals[i as int]);
                assert(rendered_lower(vals).take(i as int + 1) =~= rendered_lower(vals).take(
                    i as int,
                ).push(field::char_of(vals[i as int])));
            }
            let c = f.to_char();
            push_char(&mut out, c);
            i += 1;
        }
        proof {
            assert(rendered_lower(vals).take(k as int) =~= rendered_lower(vals));
        }
        Ok(Codex32String(out))
    }
}

/// A string accepted by `from_string` re-validates: feeding its HRP and
/// data through a fresh engine of the checksum its length selects ends
/// without error, in a residue equal to that checksum's target.
pub proof fn lemma_valid_string_revalidates(c: Codex32String)
    requires
        spec_codex32_valid(c@),
    ensures
        ({
            let long = spec_is_long_len(c@.len() as int);
            spec_run(c@, long).0 is None && spec_run(c@, long).1 == spec_target(long)
        }),
{
}

/// Splits a string at the rightmost `1`: the HRP before it and the data
/// after it.  Without a separator the HRP is empty and everything is data.
#[verifier::loop_isolation(false)]
fn split_at_separator(s: &str) -> (r: (&str, &str))
    ensures
        r.0@ == spec_hrp(s@),
        r.1@ == spec_data(s@),
{
    let n = s.unicode_len();
    let mut sep_plus: usize = 0;
    let mut i: usize = 0;
    while i < n
        invariant
            i <= n,
            sep_plus <= i,
            sep_plus == 0 ==> forall|j: int| 0 <= j < i as int ==> s@[j] != '1',
            sep_plus > 0 ==> s@[sep_plus - 1] == '1' && (forall|j: int|
                sep_plus <= j && j < i as int ==> s@[j] != '1'),
        decreases n - i,
    {
        if s.get_char(i) == '1' {
            sep_plus = i + 1;
        }
        i += 1;
    }
    proof {
        lemma_last_sep(s@);
        if sep_plus == 0 {
            assert(last_sep(s@) == -1) by {
                if last_sep(s@) >= 0 {
                    assert(s@[last_sep(s@)] == '1');
                }
            }
        } else {
            let p = last_sep(s@);
            let q = sep_plus as int - 1;
            assert(s@[q] == '1');
            assert(p >= q) by {
                if p < q {
                    assert(s@[q] != '1');
                }
            }
            assert(p <= q) by {
                if p > q {
                    assert(s@[p] != '1');
                }
            }
        }
    }
    if sep_plus == 0 {
        let hrp = s.substring_char(0, 0);
        proof {
            assert(hrp@ =~= spec_hrp(s@));
            assert(s@ =~= spec_data(s@));
        }
        (hrp, s)
    } else {
        let hrp = s.substring_char(0, sep_plus - 1);
        let data = s.substring_char(sep_plus, n);
        proof {
            assert(hrp@ =~= spec_hrp(s@));
            assert(data@ =~= spec_data(s@));
        }
        (hrp, data)
    }
}

/// Relies on `String::push`: appends exactly one character at the end.
#[verifier::external_body]
pub(crate) fn push_char(s: &mut String, c: char)
    ensures
        final(s)@ == old(s)@.push(c),
{
    s.push(c);
}

/// Lowercase or uppercase, as applied to the bech32 alphabet.
#[derive(Copy, Clone, PartialOrd, Ord, PartialEq, Eq, Hash, Debug, Structural)]
pub enum Case {
    /// qpzr...
    Lower,
    /// QPZR...
    Upper,
}

} // verus!
