//! Canonical string renderings of products and operators.
//!
//! Every product has one textual form, used both for human-readable
//! serialization keys and for error messages: mode lists render as `c` and
//! `a` runs (`c0a3`, identity `I`), spin products as site/symbol runs
//! (`2Z`, identity `I`), and mixed products as `S…:B…:F…:` sections.

use crate::bosons::BosonProduct;
use crate::bosons::HermitianBosonProduct;
use crate::fermions::FermionProduct;
use crate::key::OperatorKey;
use crate::mixed::MixedDecoherenceProduct;
use crate::mixed::MixedView;
use crate::spins::DecoherenceProduct;
use crate::spins::PauliProduct;
use crate::spins::PlusMinusProduct;
use vstd::prelude::*;

verus! {

/// The character of a single decimal digit.
pub open spec fn digit_char(d: nat) -> char {
    if d == 0 {
        '0'
    } else if d == 1 {
        '1'
    } else if d == 2 {
        '2'
    } else if d == 3 {
        '3'
    } else if d == 4 {
        '4'
    } else if d == 5 {
        '5'
    } else if d == 6 {
        '6'
    } else if d == 7 {
        '7'
    } else if d == 8 {
        '8'
    } else {
        '9'
    }
}

/// The decimal rendering of a natural number, most significant digit first.
pub open spec fn dec_str(n: nat) -> Seq<char>
    decreases n,
{
    if n < 10 {
        seq![digit_char(n)]
    } else {
        dec_str(n / 10) + seq![digit_char(n % 10)]
    }
}

fn digit_str(d: usize) -> (r: &'static str)
    requires
        d < 10,
    ensures
        r@ == seq![digit_char(d as nat)],
{
    proof {
        reveal_strlit("0");
        reveal_strlit("1");
        reveal_strlit("2");
        reveal_strlit("3");
        reveal_strlit("4");
        reveal_strlit("5");
        reveal_strlit("6");
        reveal_strlit("7");
        reveal_strlit("8");
        reveal_strlit("9");
    }
    if d == 0 {
        "0"
    } else if d == 1 {
        "1"
    } else if d == 2 {
        "2"
    } else if d == 3 {
        "3"
    } else if d == 4 {
        "4"
    } else if d == 5 {
        "5"
    } else if d == 6 {
        "6"
    } else if d == 7 {
        "7"
    } else if d == 8 {
        "8"
    } else {
        "9"
    }
}

/// Append the decimal rendering of `n`.
pub(crate) fn push_dec(s: &mut String, n: usize)
    ensures
        final(s)@ == old(s)@ + dec_str(n as nat),
    decreases n,
{
    if n < 10 {
        s.append(digit_str(n));
    } else {
        push_dec(s, n / 10);
        s.append(digit_str(n % 10));
        proof {
            assert(final(s)@ =~= old(s)@ + dec_str(n as nat));
        }
    }
}

/// The rendering of a mode index list: each index prefixed by the kind
/// letter, as in `c0c2` or `a3`.
pub open spec fn modes_str(prefix: char, s: Seq<usize>) -> Seq<char>
    decreases s.len(),
{
    if s.len() == 0 {
        Seq::<char>::empty()
    } else {
        modes_str(prefix, s.drop_last()) + seq![prefix] + dec_str(s.last() as nat)
    }
}

/// The rendering of a creation/annihilation monomial: creator indices after
/// `c`, annihilator indices after `a`, the empty monomial as `I`.
pub open spec fn modes_code(c: Seq<usize>, a: Seq<usize>) -> Seq<char> {
    if c.len() == 0 && a.len() == 0 {
        seq!['I']
    } else {
        modes_str('c', c) + modes_str('a', a)
    }
}

fn push_modes(s: &mut String, prefix: &str, v: &Vec<usize>)
    requires
        prefix@.len() == 1,
    ensures
        final(s)@ == old(s)@ + modes_str(prefix@[0], v@),
{
    let n = v.len();
    proof {
        assert(old(s)@ + modes_str(prefix@[0], v@.take(0)) =~= old(s)@);
    }
    for i in 0..n
        invariant
            n == v@.len(),
            prefix@.len() == 1,
            s@ == old(s)@ + modes_str(prefix@[0], v@.take(i as int)),
    {
        s.append(prefix);
        push_dec(s, v[i]);
        proof {
            assert(v@.take(i + 1).drop_last() =~= v@.take(i as int));
            assert(v@.take(i + 1).last() == v@[i as int]);
            assert(prefix@ =~= seq![prefix@[0]]);
            assert(s@ =~= old(s)@ + modes_str(prefix@[0], v@.take(i + 1)));
        }
    }
    proof {
        assert(v@.take(n as int) =~= v@);
    }
}

/// Render a creation/annihilation monomial.
pub(crate) fn modes_to_string(c: &Vec<usize>, a: &Vec<usize>) -> (r: String)
    ensures
        r@ == modes_code(c@, a@),
{
    proof {
        reveal_strlit("I");
        reveal_strlit("c");
        reveal_strlit("a");
    }
    if c.len() == 0 && a.len() == 0 {
        let mut s = String::new();
        s.append("I");
        proof {
            assert(s@ =~= modes_code(c@, a@));
        }
        return s;
    }
    let mut s = String::new();
    push_modes(&mut s, "c", c);
    push_modes(&mut s, "a", a);
    proof {
        assert(s@ =~= modes_code(c@, a@));
    }
    s
}

/// The rendering of one spin symbol, by code: the decoherence alphabet is
/// `X`, `iY`, `Z`; the Pauli alphabet `X`, `Y`, `Z`; the raising/lowering
/// alphabet `+`, `-`, `Z`.
pub open spec fn deco_sym_str(code: usize) -> Seq<char> {
    if code == 0 {
        seq!['X']
    } else if code == 1 {
        seq!['i', 'Y']
    } else {
        seq!['Z']
    }
}

pub open spec fn pauli_sym_str(code: usize) -> Seq<char> {
    if code == 0 {
        seq!['X']
    } else if code == 1 {
        seq!['Y']
    } else {
        seq!['Z']
    }
}

pub open spec fn pm_sym_str(code: usize) -> Seq<char> {
    if code == 0 {
        seq!['+']
    } else if code == 1 {
        seq!['-']
    } else {
        seq!['Z']
    }
}

/// The rendering of a decoherence product's site list; the identity renders
/// as `I`.
pub open spec fn deco_sites_str(s: Seq<(usize, usize)>) -> Seq<char>
    decreases s.len(),
{
    if s.len() == 0 {
        Seq::<char>::empty()
    } else {
        deco_sites_str(s.drop_last()) + dec_str(s.last().0 as nat) + deco_sym_str(s.last().1)
    }
}

pub open spec fn deco_sites_code(s: Seq<(usize, usize)>) -> Seq<char> {
    if s.len() == 0 {
        seq!['I']
    } else {
        deco_sites_str(s)
    }
}

/// The rendering of a Pauli product's site list; the identity renders as
/// `I`.
pub open spec fn pauli_sites_str(s: Seq<(usize, usize)>) -> Seq<char>
    decreases s.len(),
{
    if s.len() == 0 {
        Seq::<char>::empty()
    } else {
        pauli_sites_str(s.drop_last()) + dec_str(s.last().0 as nat) + pauli_sym_str(s.last().1)
    }
}

pub open spec fn pauli_sites_code(s: Seq<(usize, usize)>) -> Seq<char> {
    if s.len() == 0 {
        seq!['I']
    } else {
        pauli_sites_str(s)
    }
}

/// The rendering of a plus/minus product's site list; the identity renders
/// as `I`.
pub open spec fn pm_sites_str(s: Seq<(usize, usize)>) -> Seq<char>
    decreases s.len(),
{
    if s.len() == 0 {
        Seq::<char>::empty()
    } else {
        pm_sites_str(s.drop_last()) + dec_str(s.last().0 as nat) + pm_sym_str(s.last().1)
    }
}

pub open spec fn pm_sites_code(s: Seq<(usize, usize)>) -> Seq<char> {
    if s.len() == 0 {
        seq!['I']
    } else {
        pm_sites_str(s)
    }
}

fn push_deco_sym(s: &mut String, code: usize)
    ensures
        final(s)@ == old(s)@ + deco_sym_str(code),
{
    proof {
        reveal_strlit("X");
        reveal_strlit("iY");
        reveal_strlit("Z");
    }
    if code == 0 {
        s.append("X");
    } else if code == 1 {
        s.append("iY");
    } else {
        s.append("Z");
    }
    proof {
        assert(final(s)@ =~= old(s)@ + deco_sym_str(code));
    }
}

fn push_pauli_sym(s: &mut String, code: usize)
    ensures
        final(s)@ == old(s)@ + pauli_sym_str(code),
{
    proof {
        reveal_strlit("X");
        reveal_strlit("Y");
        reveal_strlit("Z");
    }
    if code == 0 {
        s.append("X");
    } else if code == 1 {
        s.append("Y");
    } else {
        s.append("Z");
    }
    proof {
        assert(final(s)@ =~= old(s)@ + pauli_sym_str(code));
    }
}

fn push_pm_sym(s: &mut String, code: usize)
    ensures
        final(s)@ == old(s)@ + pm_sym_str(code),
{
    proof {
        reveal_strlit("+");
        reveal_strlit("-");
        reveal_strlit("Z");
    }
    if code == 0 {
        s.append("+");
    } else if code == 1 {
        s.append("-");
    } else {
        s.append("Z");
    }
    proof {
        assert(final(s)@ =~= old(s)@ + pm_sym_str(code));
    }
}

fn push_sites(
    s: &mut String,
    v: &Vec<(usize, usize)>,
    kind: usize,
)
    requires
        kind < 3,
    ensures
        kind == 0 ==> final(s)@ == old(s)@ + deco_sites_code(v@),
        kind == 1 ==> final(s)@ == old(s)@ + pauli_sites_code(v@),
        kind == 2 ==> final(s)@ == old(s)@ + pm_sites_code(v@),
{
    proof {
        reveal_strlit("I");
    }
    if v.len() == 0 {
        s.append("I");
        proof {
            assert(final(s)@ =~= old(s)@ + seq!['I']);
        }
        return ;
    }
    let n = v.len();
    proof {
        assert(old(s)@ + deco_sites_str(v@.take(0)) =~= old(s)@);
        assert(old(s)@ + pauli_sites_str(v@.take(0)) =~= old(s)@);
        assert(old(s)@ + pm_sites_str(v@.take(0)) =~= old(s)@);
    }
    for i in 0..n
        invariant
            n == v@.len(),
            n > 0,
            kind < 3,
            kind == 0 ==> s@ == old(s)@ + deco_sites_str(v@.take(i as int)),
            kind == 1 ==> s@ == old(s)@ + pauli_sites_str(v@.take(i as int)),
            kind == 2 ==> s@ == old(s)@ + pm_sites_str(v@.take(i as int)),
    {
        push_dec(s, v[i].0);
        if kind == 0 {
            push_deco_sym(s, v[i].1);
        } else if kind == 1 {
            push_pauli_sym(s, v[i].1);
        } else {
            push_pm_sym(s, v[i].1);
        }
        proof {
            assert(v@.take(i + 1).drop_last() =~= v@.take(i as int));
            assert(v@.take(i + 1).last() == v@[i as int]);
            if kind == 0 {
                assert(s@ =~= old(s)@ + deco_sites_str(v@.take(i + 1)));
            } else if kind == 1 {
                assert(s@ =~= old(s)@ + pauli_sites_str(v@.take(i + 1)));
            } else {
                assert(s@ =~= old(s)@ + pm_sites_str(v@.take(i + 1)));
            }
        }
    }
    proof {
        assert(v@.take(n as int) =~= v@);
    }
}

impl FermionProduct {
    /// The canonical rendering, as in `c0a3`.
    pub fn to_coded_string(&self) -> (r: String)
        ensures
            r@ == modes_code(self@.0, self@.1),
    {
        modes_to_string(self.creators(), self.annihilators())
    }
}

impl BosonProduct {
    /// The canonical rendering, as in `c0a3`.
    pub fn to_coded_string(&self) -> (r: String)
        ensures
            r@ == modes_code(self@.0, self@.1),
    {
        modes_to_string(self.creators(), self.annihilators())
    }
}

impl HermitianBosonProduct {
    /// The canonical rendering, as in `c0a1`.
    pub fn to_coded_string(&self) -> (r: String)
        ensures
            r@ == modes_code(self@.0, self@.1),
    {
        modes_to_string(self.creators(), self.annihilators())
    }
}

impl DecoherenceProduct {
    /// The canonical rendering, as in `0X2Z`; the identity renders as `I`.
    pub fn to_coded_string(&self) -> (r: String)
        ensures
            r@ == deco_sites_code(self@),
    {
        let mut s = String::new();
        push_sites(&mut s, self.items(), 0);
        s
    }
}

impl PauliProduct {
    /// The canonical rendering, as in `0X2Z`; the identity renders as `I`.
    pub fn to_coded_string(&self) -> (r: String)
        ensures
            r@ == pauli_sites_code(self@),
    {
        let mut s = String::new();
        push_sites(&mut s, self.items(), 1);
        s
    }
}

impl PlusMinusProduct {
    /// The canonical rendering, as in `0+1-2Z`; the identity renders as `I`.
    pub fn to_coded_string(&self) -> (r: String)
        ensures
            r@ == pm_sites_code(self@),
    {
        let mut s = String::new();
        push_sites(&mut s, self.items(), 2);
        s
    }
}

/// The rendering of the spin sections of a mixed product: `S…:` per
/// subsystem.
pub open spec fn mixed_spins_str(vs: Seq<Seq<(usize, usize)>>) -> Seq<char>
    decreases vs.len(),
{
    if vs.len() == 0 {
        Seq::<char>::empty()
    } else {
        mixed_spins_str(vs.drop_last()) + seq!['S'] + deco_sites_code(vs.last()) + seq![':']
    }
}

/// The rendering of the boson or fermion sections of a mixed product, with
/// the given section letter.
pub open spec fn mixed_modes_str(letter: char, vs: Seq<(Seq<usize>, Seq<usize>)>) -> Seq<char>
    decreases vs.len(),
{
    if vs.len() == 0 {
        Seq::<char>::empty()
    } else {
        mixed_modes_str(letter, vs.drop_last()) + seq![letter] + modes_code(
            vs.last().0,
            vs.last().1,
        ) + seq![':']
    }
}

/// The canonical rendering of a mixed product, as in `S2Z:Bc0a3:Fc0a3:`.
pub open spec fn mixed_code(v: MixedView) -> Seq<char> {
    mixed_spins_str(v.0) + mixed_modes_str('B', v.1) + mixed_modes_str('F', v.2)
}

impl MixedDecoherenceProduct {
    /// The canonical rendering, as in `S2Z:Bc0a3:Fc0a3:`.
    pub fn to_coded_string(&self) -> (r: String)
        ensures
            r@ == mixed_code(self.kview()),
    {
        proof {
            reveal_strlit("S");
            reveal_strlit("B");
            reveal_strlit("F");
            reveal_strlit(":");
        }
        let mut s = String::new();
        let sp = self.spins();
        let n = sp.len();
        proof {
            assert(s@ =~= mixed_spins_str(self.kview().0.take(0)));
        }
        for i in 0..n
            invariant
                n == sp@.len(),
                crate::key::views_of(sp@) == self.kview().0,
                s@ == mixed_spins_str(self.kview().0.take(i as int)),
        {
            s.append("S");
            push_sites(&mut s, sp[i].items(), 0);
            s.append(":");
            proof {
                reveal_strlit("S");
                reveal_strlit(":");
                assert(crate::key::views_of(sp@)[i as int] == sp@[i as int].kview());
                assert(sp@[i as int]@ == self.kview().0[i as int]);
                assert(self.kview().0.take(i + 1).drop_last() =~= self.kview().0.take(i as int));
                assert(self.kview().0.take(i + 1).last() == self.kview().0[i as int]);
                assert(s@ =~= mixed_spins_str(self.kview().0.take(i + 1)));
            }
        }
        proof {
            assert(self.kview().0.take(n as int) =~= self.kview().0);
        }
        let bo = self.bosons();
        let nb = bo.len();
        proof {
            assert(mixed_modes_str('B', self.kview().1.take(0)) =~= Seq::<char>::empty());
            assert(s@ =~= mixed_spins_str(self.kview().0) + mixed_modes_str(
                'B',
                self.kview().1.take(0),
            ));
        }
        for i in 0..nb
            invariant
                nb == bo@.len(),
                crate::key::views_of(bo@) == self.kview().1,
                s@ == mixed_spins_str(self.kview().0) + mixed_modes_str(
                    'B',
                    self.kview().1.take(i as int),
                ),
        {
            s.append("B");
            let piece = bo[i].to_coded_string();
            s.append(piece.as_str());
            s.append(":");
            proof {
                reveal_strlit("B");
                reveal_strlit(":");
                assert(crate::key::views_of(bo@)[i as int] == bo@[i as int].kview());
                assert(bo@[i as int]@ == self.kview().1[i as int]);
                assert(self.kview().1.take(i + 1).drop_last() =~= self.kview().1.take(i as int));
                assert(self.kview().1.take(i + 1).last() == self.kview().1[i as int]);
                assert(s@ =~= mixed_spins_str(self.kview().0) + mixed_modes_str(
                    'B',
                    self.kview().1.take(i + 1),
                ));
            }
        }
        proof {
            assert(self.kview().1.take(nb as int) =~= self.kview().1);
        }
        let fe = self.fermions();
        let nf = fe.len();
        proof {
            assert(mixed_modes_str('F', self.kview().2.take(0)) =~= Seq::<char>::empty());
            assert(s@ =~= mixed_spins_str(self.kview().0) + mixed_modes_str('B', self.kview().1)
                + mixed_modes_str('F', self.kview().2.take(0)));
        }
        for i in 0..nf
            invariant
                nf == fe@.len(),
                crate::key::views_of(fe@) == self.kview().2,
                s@ == mixed_spins_str(self.kview().0) + mixed_modes_str('B', self.kview().1)
                    + mixed_modes_str('F', self.kview().2.take(i as int)),
        {
            s.append("F");
            let piece = fe[i].to_coded_string();
            s.append(piece.as_str());
            s.append(":");
            proof {
                reveal_strlit("F");
                reveal_strlit(":");
                assert(crate::key::views_of(fe@)[i as int] == fe@[i as int].kview());
                assert(fe@[i as int]@ == self.kview().2[i as int]);
                assert(self.kview().2.take(i + 1).drop_last() =~= self.kview().2.take(i as int));
                assert(self.kview().2.take(i + 1).last() == self.kview().2[i as int]);
                assert(s@ =~= mixed_spins_str(self.kview().0) + mixed_modes_str(
                    'B',
                    self.kview().1,
                ) + mixed_modes_str('F', self.kview().2.take(i + 1)));
            }
        }
        proof {
            assert(self.kview().2.take(nf as int) =~= self.kview().2);
            assert(s@ =~= mixed_code(self.kview()));
        }
        s
    }
}


/// The entry lines of a mixed noise operator's display rendering.
pub open spec fn mixed_noise_lines(
    es: Seq<((crate::mixed::MixedView, crate::mixed::MixedView), qoqo_calculator::CalculatorComplex)>,
) -> Seq<char>
    decreases es.len(),
{
    if es.len() == 0 {
        Seq::<char>::empty()
    } else {
        mixed_noise_lines(es.drop_last()) + "("@ + mixed_code(es.last().0.0) + ", "@ + mixed_code(
            es.last().0.1,
        ) + "): "@ + crate::scalar::cc_str_of(es.last().1) + ",\n"@
    }
}

impl crate::noise::MixedLindbladNoiseOperator {
    /// The display rendering: the operator's name, then one line per entry
    /// with both keys in canonical form and the coefficient.
    #[verifier::rlimit(60)]
    pub fn to_coded_string(&self) -> (r: String)
        ensures
            r@ == "MixedLindbladNoiseOperator{\n"@ + mixed_noise_lines(self.entries()) + "}"@,
    {
        let mut s = String::new();
        s.append("MixedLindbladNoiseOperator{\n");
        let n = self.len();
        proof {
            assert(s@ + mixed_noise_lines(self.entries().take(0)) =~= s@);
        }
        for i in 0..n
            invariant
                n == self.entries().len(),
                s@ == "MixedLindbladNoiseOperator{\n"@ + mixed_noise_lines(
                    self.entries().take(i as int),
                ),
        {
            let e = self.entry_at(i);
            s.append("(");
            let left = e.0.0.to_coded_string();
            s.append(left.as_str());
            s.append(", ");
            let right = e.0.1.to_coded_string();
            s.append(right.as_str());
            s.append("): ");
            let v = crate::scalar::cc_to_string(&e.1);
            s.append(v.as_str());
            s.append(",\n");
            proof {
                assert(self.entries().take(i + 1).drop_last() =~= self.entries().take(i as int));
                assert(self.entries().take(i + 1).last() == self.entries()[i as int]);
                assert(s@ =~= "MixedLindbladNoiseOperator{\n"@ + mixed_noise_lines(
                    self.entries().take(i + 1),
                ));
            }
        }
        s.append("}");
        proof {
            assert(self.entries().take(n as int) =~= self.entries());
        }
        s
    }
}

} // verus!
