//! Choosing an output file name that does not collide.
//!
//! The requested output path is the first candidate. As long as the
//! caller finds the current candidate taken on disk, it advances the
//! resolver, which rebuilds the candidate as the requested name's stem,
//! a strictly increasing counter, a dot, and the requested name's
//! extension. Probing the disk itself is the caller's work; the
//! resolver only decides what each candidate is called.

use vstd::prelude::*;
use crate::args::views;
use crate::paths::{
    extension_of, file_name, lemma_extension_no_dot_no_slash, lemma_last_at_absent,
    lemma_last_at_witness, lemma_stem_no_slash, spec_extension, spec_stem, stem_of,
};

verus! {

/// The decimal digit `d` stands for, for `d` below ten.
pub open spec fn digit_char(d: nat) -> char {
    if d == 0 {
        '0'
    } else if d == 1 {
        '1'
    } else if d == 2 {
        '2'
    } else if d == 3 {
        '3'
    } else if d == 4 {
        '4'
    } else if d == 5 {
        '5'
    } else if d == 6 {
        '6'
    } else if d == 7 {
        '7'
    } else if d == 8 {
        '8'
    } else {
        '9'
    }
}

/// The decimal rendering of `n`, without a sign and without leading
/// zeros (except for `n` equal to zero itself).
pub open spec fn spec_decimal(n: nat) -> Seq<char>
    decreases n,
{
    if n < 10 {
        seq![digit_char(n)]
    } else {
        spec_decimal(n / 10).push(digit_char(n % 10))
    }
}

fn digit_str(d: u16) -> (r: &'static str)
    requires
        d < 10,
    ensures
        r@ == seq![digit_char(d as nat)],
{
    let r: &'static str = if d == 0 {
        "0"
    } else if d == 1 {
        "1"
    } else if d == 2 {
        "2"
    } else if d == 3 {
        "3"
    } else if d == 4 {
        "4"
    } else if d == 5 {
        "5"
    } else if d == 6 {
        "6"
    } else if d == 7 {
        "7"
    } else if d == 8 {
        "8"
    } else {
        "9"
    };
    proof {
        reveal_strlit("0");
        reveal_strlit("1");
        reveal_strlit("2");
        reveal_strlit("3");
        reveal_strlit("4");
        reveal_strlit("5");
        reveal_strlit("6");
        reveal_strlit("7");
        reveal_strlit("8");
        reveal_strlit("9");
        assert(r@ =~= seq![digit_char(d as nat)]);
    }
    r
}

/// The decimal rendering of `n`.
pub fn decimal_string(n: u16) -> (r: String)
    ensures
        r@ == spec_decimal(n as nat),
{
    let mut s = String::new();
    let mut m: u16 = n;
    if m < 10 {
        let d = digit_str(m);
        s.append(d);
        proof {
            assert(s@ =~= spec_decimal(n as nat));
        }
        return s;
    }
    proof {
        assert(spec_decimal(n as nat) =~= spec_decimal(n as nat) + s@);
    }
    while m > 0
        invariant
            m > 0 ==> spec_decimal(n as nat) == spec_decimal(m as nat) + s@,
            m == 0 ==> spec_decimal(n as nat) == s@,
        decreases m,
    {
        let ghost m0 = m as nat;
        let ghost s0 = s@;
        let d: u16 = m % 10;
        let piece = String::from_str(digit_str(d));
        s = piece.concat(s.as_str());
        m = m / 10;
        proof {
            assert(m as nat == m0 / 10);
            if m0 < 10 {
                assert(m0 % 10 == m0);
                assert(spec_decimal(m0) + s0 =~= s@);
            } else {
                assert(spec_decimal(m0) == spec_decimal(m0 / 10).push(digit_char(m0 % 10)));
                assert(spec_decimal(m0) + s0 =~= spec_decimal(m0 / 10) + (seq![
                    digit_char(m0 % 10),
                ] + s0));
                assert(s@ =~= seq![digit_char(m0 % 10)] + s0);
            }
        }
    }
    s
}

/// The candidate output name built from a stem, an extension and a
/// counter value.
pub open spec fn spec_candidate(stem: Seq<char>, ext: Seq<char>, c: nat) -> Seq<char> {
    stem + spec_decimal(c) + "."@ + ext
}

/// Steps through candidate output names for a requested output path.
///
/// Candidate zero is the requested path itself; every later candidate
/// is the requested name's stem, the counter, a dot, and the requested
/// name's extension.
pub struct OutputResolver {
    stem: String,
    ext: String,
    counter: u16,
    candidate: String,
    renamed: bool,
}

impl OutputResolver {
    /// The stem the candidates are built from.
    pub closed spec fn stem_view(&self) -> Seq<char> {
        self.stem@
    }

    /// The extension the candidates are built from.
    pub closed spec fn ext_view(&self) -> Seq<char> {
        self.ext@
    }

    /// How many candidates have been rejected so far.
    pub closed spec fn count(&self) -> nat {
        self.counter as nat
    }

    /// The candidate the caller should probe next.
    pub closed spec fn candidate_view(&self) -> Seq<char> {
        self.candidate@
    }

    /// Whether the current candidate differs from the requested path.
    pub closed spec fn was_renamed(&self) -> bool {
        self.renamed
    }

    /// After any rejection, the candidate is determined by the stem,
    /// the extension and the counter.
    pub open spec fn wf(&self) -> bool {
        &&& self.was_renamed() == (self.count() > 0)
        &&& self.count() > 0 ==> self.candidate_view() == spec_candidate(
            self.stem_view(),
            self.ext_view(),
            self.count(),
        )
    }

    /// Starts resolution at the requested path, whose final component
    /// must have an extension.
    pub fn new(requested: &str) -> (r: OutputResolver)
        requires
            spec_extension(requested@) is Some,
        ensures
            r.wf(),
            r.count() == 0,
            !r.was_renamed(),
            r.candidate_view() == requested@,
            r.stem_view() == spec_stem(requested@),
            r.ext_view() == spec_extension(requested@)->0,
    {
        let stem = stem_of(requested);
        let ext = match extension_of(requested) {
            Some(e) => e,
            None => unreached(),
        };
        OutputResolver {
            stem,
            ext,
            counter: 0,
            candidate: requested.to_owned(),
            renamed: false,
        }
    }

    /// Rejects the current candidate and builds the next one.
    pub fn advance(&mut self)
        requires
            old(self).count() < 65535,
        ensures
            final(self).wf(),
            final(self).count() == old(self).count() + 1,
            final(self).was_renamed(),
            final(self).stem_view() == old(self).stem_view(),
            final(self).ext_view() == old(self).ext_view(),
            final(self).candidate_view() == spec_candidate(
                old(self).stem_view(),
                old(self).ext_view(),
                old(self).count() + 1,
            ),
    {
        self.counter = self.counter + 1;
        self.renamed = true;
        let mut c = self.stem.clone();
        let num = decimal_string(self.counter);
        c.append(num.as_str());
        c.append(".");
        c.append(self.ext.as_str());
        proof {
            assert(c@ =~= spec_candidate(self.stem@, self.ext@, self.counter as nat));
        }
        self.candidate = c;
    }

    /// The candidate the caller should probe next.
    pub fn current(&self) -> (r: &String)
        ensures
            r@ == self.candidate_view(),
    {
        &self.candidate
    }

    /// How many candidates have been rejected so far.
    pub fn counter(&self) -> (r: u16)
        ensures
            r as nat == self.count(),
    {
        self.counter
    }

    /// Whether the current candidate differs from the requested path.
    pub fn renamed(&self) -> (r: bool)
        ensures
            r == self.was_renamed(),
    {
        self.renamed
    }
}

/// The candidate tried after `c` rejections of a requested path: the
/// requested path itself first, then its stem, the counter, a dot and
/// its extension.
pub open spec fn spec_nth_candidate(requested: Seq<char>, c: nat) -> Seq<char> {
    if c == 0 {
        requested
    } else {
        spec_candidate(spec_stem(requested), spec_extension(requested)->0, c)
    }
}

/// No decimal rendering holds a dot or a separator.
pub proof fn lemma_decimal_no_separators(n: nat)
    ensures
        forall|j: int|
            0 <= j < spec_decimal(n).len() ==> spec_decimal(n)[j] != '.' && spec_decimal(n)[j]
                != '/',
    decreases n,
{
    if n < 10 {
    } else {
        lemma_decimal_no_separators(n / 10);
        assert forall|j: int| 0 <= j < spec_decimal(n).len() implies spec_decimal(n)[j] != '.'
            && spec_decimal(n)[j] != '/' by {
            if j < spec_decimal(n / 10).len() {
                assert(spec_decimal(n)[j] == spec_decimal(n / 10)[j]);
            } else {
                assert(spec_decimal(n)[j] == digit_char(n % 10));
            }
        }
    }
}

/// A decimal rendering is never empty.
pub proof fn lemma_decimal_nonempty(n: nat)
    ensures
        spec_decimal(n).len() >= 1,
{
}

/// Two numbers with the same decimal rendering are the same number.
pub proof fn lemma_decimal_injective(a: nat, b: nat)
    requires
        spec_decimal(a) == spec_decimal(b),
    ensures
        a == b,
    decreases a + b,
{
    if a < 10 && b < 10 {
        assert(spec_decimal(a)[0] == digit_char(a));
        assert(spec_decimal(b)[0] == digit_char(b));
    } else if a < 10 {
        lemma_decimal_nonempty(b / 10);
        assert(spec_decimal(a).len() == 1);
        assert(spec_decimal(b).len() >= 2);
    } else if b < 10 {
        lemma_decimal_nonempty(a / 10);
        assert(spec_decimal(b).len() == 1);
        assert(spec_decimal(a).len() >= 2);
    } else {
        assert(spec_decimal(a).last() == digit_char(a % 10));
        assert(spec_decimal(b).last() == digit_char(b % 10));
        assert(a % 10 == b % 10);
        assert(spec_decimal(a).drop_last() =~= spec_decimal(a / 10));
        assert(spec_decimal(b).drop_last() =~= spec_decimal(b / 10));
        assert(a / 10 < a) by (nonlinear_arith)
            requires
                a >= 10,
        ;
        assert(b / 10 < b) by (nonlinear_arith)
            requires
                b >= 10,
        ;
        lemma_decimal_injective(a / 10, b / 10);
    }
}

/// Distinct counter values never name the same file: together with the
/// requested path itself, the candidates are pairwise distinct, so a
/// strictly increasing counter always reaches fresh names.
pub proof fn lemma_candidates_distinct(requested: Seq<char>, c1: nat, c2: nat)
    requires
        spec_extension(requested) is Some,
        c1 < c2,
    ensures
        spec_nth_candidate(requested, c1) != spec_nth_candidate(requested, c2),
{
    let stem = spec_stem(requested);
    let ext = spec_extension(requested)->0;
    let d2 = spec_decimal(c2);
    let n2 = spec_nth_candidate(requested, c2);
    reveal_strlit(".");
    lemma_decimal_no_separators(c2);
    lemma_decimal_nonempty(c2);
    lemma_stem_no_slash(requested);
    lemma_extension_no_dot_no_slash(requested);
    if c1 == 0 {
        let name = file_name(requested);
        crate::paths::lemma_last_at_props(requested, '/');
        crate::paths::lemma_last_at_props(name, '.');
        let slash = crate::paths::last_at(requested, '/');
        if slash >= 0 {
            // The requested path holds a separator; no candidate does.
            if requested == n2 {
                assert(requested[slash] == '/');
                let j = slash;
                assert(n2[j] != '/') by {
                    if j < stem.len() {
                        assert(n2[j] == stem[j]);
                    } else if j < stem.len() + d2.len() {
                        assert(n2[j] == d2[j - stem.len()]);
                    } else if j == stem.len() + d2.len() {
                        assert(n2[j] == "."@[0]);
                    } else {
                        assert(n2[j] == ext[j - (stem.len() + d2.len()) - 1]);
                    }
                }
            }
        } else {
            // The requested path is its own file name: the stem, a dot
            // and the extension. The candidate carries a digit where
            // the requested path carries its dot.
            assert(name =~= requested);
            let d = crate::paths::last_at(name, '.');
            if requested == n2 {
                assert(stem.len() == d);
                assert(requested[d] == '.');
                assert(n2[d] == d2[0]);
                assert(d2[0] != '.');
            }
        }
    } else {
        let d1 = spec_decimal(c1);
        let n1 = spec_nth_candidate(requested, c1);
        lemma_decimal_no_separators(c1);
        lemma_decimal_nonempty(c1);
        if d1.len() == d2.len() {
            if n1 == n2 {
                assert forall|j: int| 0 <= j < d1.len() implies d1[j] == d2[j] by {
                    assert(n1[stem.len() + j] == d1[j]);
                    assert(n2[stem.len() + j] == d2[j]);
                }
                assert(d1 =~= d2);
                lemma_decimal_injective(c1, c2);
            }
        } else {
            assert(n1.len() != n2.len());
        }
    }
}

/// Every suffixed candidate keeps the requested name's extension: the
/// counter lands at the end of the stem, never in the extension.
pub proof fn lemma_candidate_keeps_extension(requested: Seq<char>, c: nat)
    requires
        spec_extension(requested) is Some,
        c >= 1,
    ensures
        spec_extension(spec_nth_candidate(requested, c)) == spec_extension(requested),
{
    let stem = spec_stem(requested);
    let ext = spec_extension(requested)->0;
    let digits = spec_decimal(c);
    let cand = spec_nth_candidate(requested, c);
    reveal_strlit(".");
    lemma_stem_no_slash(requested);
    lemma_extension_no_dot_no_slash(requested);
    lemma_decimal_no_separators(c);
    let dotpos = stem.len() + digits.len();
    assert(digits.len() >= 1);
    assert forall|j: int| 0 <= j < cand.len() implies cand[j] != '/' by {
        if j < stem.len() {
            assert(cand[j] == stem[j]);
        } else if j < dotpos {
            assert(cand[j] == digits[j - stem.len()]);
        } else if j == dotpos {
            assert(cand[j] == "."@[0]);
        } else {
            assert(cand[j] == ext[j - dotpos - 1]);
        }
    }
    lemma_last_at_absent(cand, '/');
    assert(file_name(cand) =~= cand);
    assert(cand[dotpos as int] == "."@[0]);
    assert forall|j: int| dotpos < j < cand.len() implies cand[j] != '.' by {
        assert(cand[j] == ext[j - dotpos - 1]);
    }
    lemma_last_at_witness(cand, '.', dotpos as int);
    assert(spec_extension(cand)->0 =~= ext);
}

/// Whether `x` is among `names`.
fn contains_name(names: &Vec<String>, x: &String) -> (r: bool)
    ensures
        r == views(names@).contains(x@),
{
    let mut i: usize = 0;
    while i < names.len()
        invariant
            i <= names@.len(),
            forall|j: int| 0 <= j < i ==> views(names@)[j] != x@,
        decreases names@.len() - i,
    {
        if names[i].eq(x) {
            proof {
                assert(views(names@)[i as int] == x@);
            }
            return true;
        }
        proof {
            assert(views(names@)[i as int] == names@[i as int]@);
        }
        i = i + 1;
    }
    false
}

/// The first candidate name that is not among `taken` — the requested
/// path when it is free, otherwise the lowest free counter suffix.
/// `None` only when every counter value has been used up.
pub fn resolve_among(requested: &str, taken: &Vec<String>) -> (r: Option<String>)
    requires
        spec_extension(requested@) is Some,
    ensures
        r matches Some(s) ==> exists|c: nat|
            {
                &&& s@ == spec_nth_candidate(requested@, c)
                &&& !views(taken@).contains(s@)
                &&& forall|d: nat| d < c ==> views(taken@).contains(spec_nth_candidate(requested@, d))
            },
        r is None ==> forall|c: nat|
            c <= 65535 ==> views(taken@).contains(spec_nth_candidate(requested@, c)),
{
    let mut resolver = OutputResolver::new(requested);
    loop
        invariant
            spec_extension(requested@) is Some,
            resolver.count() <= 65535,
            resolver.stem_view() == spec_stem(requested@),
            resolver.ext_view() == spec_extension(requested@)->0,
            resolver.candidate_view() == spec_nth_candidate(requested@, resolver.count()),
            forall|d: nat|
                d < resolver.count() ==> views(taken@).contains(spec_nth_candidate(requested@, d)),
        decreases 65536 - resolver.count(),
    {
        if !contains_name(taken, resolver.current()) {
            let ghost c = resolver.count();
            proof {
                assert(resolver.candidate_view() == spec_nth_candidate(requested@, c));
            }
            return Some(resolver.current().clone());
        }
        if resolver.counter() == 65535 {
            proof {
                assert forall|c: nat| c <= 65535 implies views(taken@).contains(
                    spec_nth_candidate(requested@, c),
                ) by {
                    if c == 65535 {
                        assert(views(taken@).contains(spec_nth_candidate(requested@, 65535)));
                    }
                }
            }
            return None;
        }
        resolver.advance();
    }
}

} // verus!
