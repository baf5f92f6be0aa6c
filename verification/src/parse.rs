//! Parsing of the canonical string renderings.
//!
//! The readable serialization keys its entries by the canonical renderings
//! of `crate::text`; this module parses them back.  Each parsing function is
//! an executable mirror of a specification-level parser, and the
//! specification parsers invert the renderings exactly: parsing a rendering
//! returns the rendered value with nothing left over.

use crate::text::dec_str;
use crate::text::digit_char;
use vstd::prelude::*;

verus! {

/// The numeric value of a digit character; `10` for every other character.
pub open spec fn digit_val(c: char) -> nat {
    if c == '0' {
        0
    } else if c == '1' {
        1
    } else if c == '2' {
        2
    } else if c == '3' {
        3
    } else if c == '4' {
        4
    } else if c == '5' {
        5
    } else if c == '6' {
        6
    } else if c == '7' {
        7
    } else if c == '8' {
        8
    } else if c == '9' {
        9
    } else {
        10
    }
}

pub open spec fn is_digit(c: char) -> bool {
    digit_val(c) < 10
}

/// The value of a digit string, most significant digit first.
pub open spec fn digits_value(ds: Seq<char>) -> nat
    decreases ds.len(),
{
    if ds.len() == 0 {
        0
    } else {
        digits_value(ds.drop_last()) * 10 + digit_val(ds.last())
    }
}

/// How many digits stand at the front of `s`.
pub open spec fn digit_run_len(s: Seq<char>) -> int
    decreases s.len(),
{
    if s.len() == 0 || !is_digit(s[0]) {
        0
    } else {
        1 + digit_run_len(s.drop_first())
    }
}

/// Parse a decimal number from the front of `s`: the longest digit run,
/// rejecting an empty run, a redundant leading zero and a value beyond the
/// machine's range.
pub open spec fn parse_num(s: Seq<char>) -> Option<(usize, Seq<char>)> {
    let k = digit_run_len(s);
    if k == 0 {
        Option::None
    } else if s[0] == '0' && k > 1 {
        Option::None
    } else if digits_value(s.take(k)) > usize::MAX {
        Option::None
    } else {
        Option::Some(((digits_value(s.take(k)) as usize), s.skip(k)))
    }
}

proof fn lemma_digit_char_val(d: nat)
    requires
        d < 10,
    ensures
        digit_val(digit_char(d)) == d,
{
}

proof fn lemma_dec_str_digits(n: nat)
    ensures
        dec_str(n).len() >= 1,
        forall|i: int| 0 <= i < dec_str(n).len() ==> is_digit(#[trigger] dec_str(n)[i]),
        n >= 1 ==> dec_str(n)[0] != '0',
        n < 10 <==> dec_str(n).len() == 1,
        digits_value(dec_str(n)) == n,
    decreases n,
{
    if n < 10 {
        lemma_digit_char_val(n);
        assert(dec_str(n) =~= seq![digit_char(n)]);
        assert(dec_str(n).drop_last() =~= Seq::<char>::empty());
        assert(dec_str(n).last() == digit_char(n));
        assert(digits_value(dec_str(n)) == digits_value(Seq::<char>::empty()) * 10 + digit_val(
            digit_char(n),
        ));
    } else {
        lemma_dec_str_digits(n / 10);
        let pre = dec_str(n / 10);
        assert(dec_str(n) == pre + seq![digit_char(n % 10)]);
        assert(dec_str(n).drop_last() =~= pre);
        assert(dec_str(n).last() == digit_char(n % 10));
        lemma_digit_char_val(n % 10);
        assert(dec_str(n)[0] == pre[0]);
        assert(n / 10 >= 1);
        assert(digits_value(dec_str(n)) == (n / 10) * 10 + n % 10);
        vstd::arithmetic::div_mod::lemma_fundamental_div_mod(n as int, 10);
        assert(dec_str(n).len() == pre.len() + 1);
    }
}

/// The digit run of a rendering followed by a non-digit is the rendering.
proof fn lemma_digit_run_of_render(ds: Seq<char>, rest: Seq<char>)
    requires
        forall|i: int| 0 <= i < ds.len() ==> is_digit(#[trigger] ds[i]),
        rest.len() > 0 ==> !is_digit(rest[0]),
    ensures
        digit_run_len(ds + rest) == ds.len(),
    decreases ds.len(),
{
    if ds.len() == 0 {
        assert(ds + rest =~= rest);
    } else {
        assert((ds + rest)[0] == ds[0]);
        assert((ds + rest).drop_first() =~= ds.drop_first() + rest);
        assert(forall|i: int|
            0 <= i < ds.drop_first().len() ==> is_digit(#[trigger] ds.drop_first()[i]));
        lemma_digit_run_of_render(ds.drop_first(), rest);
    }
}

/// Parsing inverts rendering: a rendered number followed by anything that is
/// not a digit parses back to the number, leaving the rest.
pub proof fn lemma_parse_num_render(n: usize, rest: Seq<char>)
    requires
        rest.len() > 0 ==> !is_digit(rest[0]),
    ensures
        parse_num(dec_str(n as nat) + rest) == Option::Some((n, rest)),
{
    let ds = dec_str(n as nat);
    lemma_dec_str_digits(n as nat);
    lemma_digit_run_of_render(ds, rest);
    let s = ds + rest;
    assert(digit_run_len(s) == ds.len());
    assert(s.take(ds.len() as int) =~= ds);
    assert(s.skip(ds.len() as int) =~= rest);
    assert(s[0] == ds[0]);
    if ds.len() > 1 {
        assert(n as nat >= 1) by {
            if n == 0 {
                assert(dec_str(0).len() == 1);
            }
        }
    }
}

/// Executable mirror of `parse_num`, reading from position `pos`.
pub(crate) fn parse_num_at(s: &str, n: usize, pos: usize) -> (r: Option<(usize, usize)>)
    requires
        pos <= n,
        n == s@.len(),
    ensures
        match r {
            Some((v, np)) => pos < np <= n && parse_num(s@.skip(pos as int)) == Option::Some(
                (v, s@.skip(np as int)),
            ),
            None => parse_num(s@.skip(pos as int)) is None,
        },
{
    let ghost tail = s@.skip(pos as int);
    proof {
        assert(tail.skip(0) =~= tail);
        assert(tail.len() == n - pos);
    }
    // measure the digit run
    let mut k: usize = 0;
    while pos + k < n && digit_of(s.get_char(pos + k)) < 10
        invariant
            pos + k <= n,
            n == s@.len(),
            tail == s@.skip(pos as int),
            k <= tail.len(),
            forall|i: int| 0 <= i < k ==> is_digit(#[trigger] tail[i]),
            digit_run_len(tail) == k + digit_run_len(tail.skip(k as int)),
        decreases n - pos - k,
    {
        proof {
            assert(tail.skip(k as int)[0] == tail[k as int]);
            assert(tail.skip(k as int).drop_first() =~= tail.skip(k + 1));
        }
        k += 1;
    }
    proof {
        if pos + k < n {
            assert(tail.skip(k as int)[0] == tail[k as int]);
            assert(!is_digit(tail.skip(k as int)[0]));
        } else {
            assert(tail.skip(k as int).len() == 0);
        }
        assert(digit_run_len(tail.skip(k as int)) == 0);
        assert(digit_run_len(tail) == k);
    }
    if k == 0 {
        return None;
    }
    if k > 1 && s.get_char(pos) == '0' {
        proof {
            assert(tail[0] == '0');
        }
        return None;
    }
    // accumulate the value, watching for overflow
    proof {
        if tail.len() > 0 {
            assert(tail[0] == s@[pos as int]);
        }
    }
    let mut v: usize = 0;
    let mut i: usize = 0;
    proof {
        assert(tail.take(0) =~= Seq::<char>::empty());
    }
    while i < k
        invariant
            i <= k,
            1 <= k <= tail.len(),
            pos + k <= n,
            n == s@.len(),
            tail == s@.skip(pos as int),
            digit_run_len(tail) == k,
            k > 1 ==> tail[0] != '0',
            forall|j: int| 0 <= j < k ==> is_digit(#[trigger] tail[j]),
            v == digits_value(tail.take(i as int)),
        decreases k - i,
    {
        let c = s.get_char(pos + i);
        proof {
            assert(tail[i as int] == s@[(pos + i) as int]);
            assert(is_digit(tail[i as int]));
        }
        let d = digit_of(c);
        match v.checked_mul(10) {
            Some(v10) => {
                match v10.checked_add(d) {
                    Some(nv) => {
                        v = nv;
                        proof {
                            assert(tail.take(i + 1).drop_last() =~= tail.take(i as int));
                            assert(tail.take(i + 1).last() == tail[i as int]);
                        }
                        i += 1;
                    },
                    None => {
                        proof {
                            lemma_prefix_value_overflow(tail, i as int, k as int);
                        }
                        return None;
                    },
                }
            },
            None => {
                proof {
                    lemma_prefix_value_overflow(tail, i as int, k as int);
                }
                return None;
            },
        }
    }
    proof {
        assert(tail.take(k as int) == tail.take(k as int));
        assert(v == digits_value(tail.take(k as int)));
        assert(s@.skip((pos + k) as int) =~= tail.skip(k as int));
    }
    Some((v, pos + k))
}

/// The value of a digit string only grows with more digits: once a prefix
/// has outgrown the machine range, the whole run has.
proof fn lemma_prefix_value_overflow(tail: Seq<char>, i: int, k: int)
    requires
        0 <= i < k <= tail.len(),
        digits_value(tail.take(i)) * 10 + digit_val(tail[i]) > usize::MAX,
        forall|j: int| 0 <= j < k ==> is_digit(#[trigger] tail[j]),
    ensures
        digits_value(tail.take(k)) > usize::MAX,
    decreases k - i,
{
    assert(tail.take(i + 1).drop_last() =~= tail.take(i));
    assert(tail.take(i + 1).last() == tail[i]);
    if i + 1 == k {
    } else {
        assert(digits_value(tail.take(i + 1)) > usize::MAX);
        assert(tail.take(i + 2).drop_last() =~= tail.take(i + 1));
        assert(tail.take(i + 2).last() == tail[i + 1]);
        assert(digits_value(tail.take(i + 2)) >= digits_value(tail.take(i + 1)) * 10) by (
        nonlinear_arith)
            requires
                digits_value(tail.take(i + 2)) == digits_value(tail.take(i + 1)) * 10 + digit_val(
                    tail[i + 1],
                ),
        ;
        if i + 2 == k {
        } else {
            lemma_value_grows(tail, i + 2, k);
        }
    }
}

proof fn lemma_value_grows(tail: Seq<char>, m: int, k: int)
    requires
        0 <= m <= k <= tail.len(),
        digits_value(tail.take(m)) > usize::MAX,
    ensures
        digits_value(tail.take(k)) > usize::MAX,
    decreases k - m,
{
    if m < k {
        assert(tail.take(m + 1).drop_last() =~= tail.take(m));
        assert(digits_value(tail.take(m + 1)) >= digits_value(tail.take(m)) * 10) by (
        nonlinear_arith)
            requires
                digits_value(tail.take(m + 1)) == digits_value(tail.take(m)) * 10 + digit_val(
                    tail.take(m + 1).last(),
                ),
        ;
        lemma_value_grows(tail, m + 1, k);
    }
}

/// The numeric value of a digit character, `10` for any other character.
fn digit_of(c: char) -> (d: usize)
    ensures
        d == digit_val(c),
        d <= 10,
{
    if c == '0' {
        0
    } else if c == '1' {
        1
    } else if c == '2' {
        2
    } else if c == '3' {
        3
    } else if c == '4' {
        4
    } else if c == '5' {
        5
    } else if c == '6' {
        6
    } else if c == '7' {
        7
    } else if c == '8' {
        8
    } else if c == '9' {
        9
    } else {
        10
    }
}


/// Parse one decoherence symbol: `X`, `iY` or `Z`.
pub open spec fn parse_deco_sym(s: Seq<char>) -> Option<(usize, Seq<char>)> {
    if s.len() > 0 && s[0] == 'X' {
        Option::Some((0usize, s.drop_first()))
    } else if s.len() >= 2 && s[0] == 'i' && s[1] == 'Y' {
        Option::Some((1usize, s.skip(2)))
    } else if s.len() > 0 && s[0] == 'Z' {
        Option::Some((2usize, s.drop_first()))
    } else {
        Option::None
    }
}

/// Parse a run of `site symbol` pairs, as long as a digit starts one.
pub open spec fn parse_deco_run(s: Seq<char>) -> (Seq<(usize, usize)>, Seq<char>)
    decreases s.len(),
{
    if s.len() > 0 && is_digit(s[0]) {
        match parse_num(s) {
            Option::None => (Seq::<(usize, usize)>::empty(), s),
            Option::Some((v, r1)) => {
                match parse_deco_sym(r1) {
                    Option::None => (Seq::<(usize, usize)>::empty(), s),
                    Option::Some((code, r2)) => {
                        if r2.len() < s.len() {
                            let pr = parse_deco_run(r2);
                            (seq![(v, code)] + pr.0, pr.1)
                        } else {
                            (Seq::<(usize, usize)>::empty(), s)
                        }
                    },
                }
            },
        }
    } else {
        (Seq::<(usize, usize)>::empty(), s)
    }
}

/// Parse a decoherence product body: `I` or one or more `site symbol` pairs.
pub open spec fn parse_deco_body(s: Seq<char>) -> Option<(Seq<(usize, usize)>, Seq<char>)> {
    if s.len() > 0 && s[0] == 'I' {
        Option::Some((Seq::<(usize, usize)>::empty(), s.drop_first()))
    } else {
        let pr = parse_deco_run(s);
        if pr.0.len() == 0 {
            Option::None
        } else {
            Option::Some(pr)
        }
    }
}

/// Parse a run of indices each introduced by `prefix`.
pub open spec fn parse_mode_run(prefix: char, s: Seq<char>) -> (Seq<usize>, Seq<char>)
    decreases s.len(),
{
    if s.len() > 0 && s[0] == prefix {
        match parse_num(s.drop_first()) {
            Option::None => (Seq::<usize>::empty(), s),
            Option::Some((v, rest)) => {
                if rest.len() < s.len() {
                    let pr = parse_mode_run(prefix, rest);
                    (seq![v] + pr.0, pr.1)
                } else {
                    (Seq::<usize>::empty(), s)
                }
            },
        }
    } else {
        (Seq::<usize>::empty(), s)
    }
}

/// Parse a creation/annihilation body: `I` or creator and annihilator runs,
/// at least one index in all.
pub open spec fn parse_modes_body(s: Seq<char>) -> Option<
    ((Seq<usize>, Seq<usize>), Seq<char>),
> {
    if s.len() > 0 && s[0] == 'I' {
        Option::Some(((Seq::<usize>::empty(), Seq::<usize>::empty()), s.drop_first()))
    } else {
        let pc = parse_mode_run('c', s);
        let pa = parse_mode_run('a', pc.1);
        if pc.0.len() + pa.0.len() == 0 {
            Option::None
        } else {
            Option::Some(((pc.0, pa.0), pa.1))
        }
    }
}

/// Parse the `S…:` sections of a mixed key.
pub open spec fn parse_spin_sections(s: Seq<char>) -> Option<
    (Seq<Seq<(usize, usize)>>, Seq<char>),
>
    decreases s.len(),
{
    if s.len() > 0 && s[0] == 'S' {
        match parse_deco_body(s.drop_first()) {
            Option::None => Option::None,
            Option::Some((items, r1)) => {
                if r1.len() > 0 && r1[0] == ':' && r1.len() < s.len() {
                    match parse_spin_sections(r1.drop_first()) {
                        Option::None => Option::None,
                        Option::Some((more, fin)) => Option::Some(
                            (seq![items] + more, fin),
                        ),
                    }
                } else {
                    Option::None
                }
            },
        }
    } else {
        Option::Some((Seq::<Seq<(usize, usize)>>::empty(), s))
    }
}

/// Parse the `B…:` or `F…:` sections of a mixed key.
pub open spec fn parse_mode_sections(letter: char, s: Seq<char>) -> Option<
    (Seq<(Seq<usize>, Seq<usize>)>, Seq<char>),
>
    decreases s.len(),
{
    if s.len() > 0 && s[0] == letter {
        match parse_modes_body(s.drop_first()) {
            Option::None => Option::None,
            Option::Some((pair, r1)) => {
                if r1.len() > 0 && r1[0] == ':' && r1.len() < s.len() {
                    match parse_mode_sections(letter, r1.drop_first()) {
                        Option::None => Option::None,
                        Option::Some((more, fin)) => Option::Some((seq![pair] + more, fin)),
                    }
                } else {
                    Option::None
                }
            },
        }
    } else {
        Option::Some((Seq::<(Seq<usize>, Seq<usize>)>::empty(), s))
    }
}

/// Parse a whole mixed key rendering: spin sections, then boson sections,
/// then fermion sections, consuming everything.
pub open spec fn parse_mixed_view(s: Seq<char>) -> Option<crate::mixed::MixedView> {
    match parse_spin_sections(s) {
        Option::None => Option::None,
        Option::Some((spins, r1)) => {
            match parse_mode_sections('B', r1) {
                Option::None => Option::None,
                Option::Some((bosons, r2)) => {
                    match parse_mode_sections('F', r2) {
                        Option::None => Option::None,
                        Option::Some((fermions, r3)) => {
                            if r3.len() == 0 {
                                Option::Some((spins, bosons, fermions))
                            } else {
                                Option::None
                            }
                        },
                    }
                },
            }
        },
    }
}


/// The renderings reassociated from the front, for induction.
proof fn lemma_modes_str_front(p: char, xs: Seq<usize>)
    requires
        xs.len() > 0,
    ensures
        crate::text::modes_str(p, xs) == seq![p] + dec_str(xs[0] as nat) + crate::text::modes_str(
            p,
            xs.drop_first(),
        ),
    decreases xs.len(),
{
    if xs.len() == 1 {
        assert(xs.drop_last() =~= Seq::<usize>::empty());
        assert(xs.drop_first() =~= Seq::<usize>::empty());
        assert(xs.last() == xs[0]);
        assert(crate::text::modes_str(p, xs) =~= seq![p] + dec_str(xs[0] as nat)
            + crate::text::modes_str(p, xs.drop_first()));
    } else {
        lemma_modes_str_front(p, xs.drop_last());
        assert(xs.drop_last()[0] == xs[0]);
        assert(xs.drop_last().drop_first() =~= xs.drop_first().drop_last());
        assert(xs.drop_first().last() == xs.last());
        assert(crate::text::modes_str(p, xs.drop_first()) == crate::text::modes_str(
            p,
            xs.drop_first().drop_last(),
        ) + seq![p] + dec_str(xs.drop_first().last() as nat));
        assert(crate::text::modes_str(p, xs) =~= seq![p] + dec_str(xs[0] as nat)
            + crate::text::modes_str(p, xs.drop_first()));
    }
}

proof fn lemma_deco_sites_str_front(xs: Seq<(usize, usize)>)
    requires
        xs.len() > 0,
    ensures
        crate::text::deco_sites_str(xs) == dec_str(xs[0].0 as nat) + crate::text::deco_sym_str(
            xs[0].1,
        ) + crate::text::deco_sites_str(xs.drop_first()),
    decreases xs.len(),
{
    if xs.len() == 1 {
        assert(xs.drop_last() =~= Seq::<(usize, usize)>::empty());
        assert(xs.drop_first() =~= Seq::<(usize, usize)>::empty());
        assert(xs.last() == xs[0]);
        assert(crate::text::deco_sites_str(xs) =~= dec_str(xs[0].0 as nat)
            + crate::text::deco_sym_str(xs[0].1) + crate::text::deco_sites_str(xs.drop_first()));
    } else {
        lemma_deco_sites_str_front(xs.drop_last());
        assert(xs.drop_last()[0] == xs[0]);
        assert(xs.drop_last().drop_first() =~= xs.drop_first().drop_last());
        assert(xs.drop_first().last() == xs.last());
        assert(crate::text::deco_sites_str(xs.drop_first()) == crate::text::deco_sites_str(
            xs.drop_first().drop_last(),
        ) + dec_str(xs.drop_first().last().0 as nat) + crate::text::deco_sym_str(
            xs.drop_first().last().1,
        ));
        assert(crate::text::deco_sites_str(xs) =~= dec_str(xs[0].0 as nat)
            + crate::text::deco_sym_str(xs[0].1) + crate::text::deco_sites_str(xs.drop_first()));
    }
}

proof fn lemma_mixed_spins_str_front(vs: Seq<Seq<(usize, usize)>>)
    requires
        vs.len() > 0,
    ensures
        crate::text::mixed_spins_str(vs) == seq!['S'] + crate::text::deco_sites_code(vs[0])
            + seq![':'] + crate::text::mixed_spins_str(vs.drop_first()),
    decreases vs.len(),
{
    if vs.len() == 1 {
        assert(vs.drop_last() =~= Seq::<Seq<(usize, usize)>>::empty());
        assert(vs.drop_first() =~= Seq::<Seq<(usize, usize)>>::empty());
        assert(vs.last() == vs[0]);
        assert(crate::text::mixed_spins_str(vs) =~= seq!['S'] + crate::text::deco_sites_code(
            vs[0],
        ) + seq![':'] + crate::text::mixed_spins_str(vs.drop_first()));
    } else {
        lemma_mixed_spins_str_front(vs.drop_last());
        assert(vs.drop_last()[0] == vs[0]);
        assert(vs.drop_last().drop_first() =~= vs.drop_first().drop_last());
        assert(vs.drop_first().last() == vs.last());
        assert(crate::text::mixed_spins_str(vs.drop_first()) == crate::text::mixed_spins_str(
            vs.drop_first().drop_last(),
        ) + seq!['S'] + crate::text::deco_sites_code(vs.drop_first().last()) + seq![':']);
        assert(crate::text::mixed_spins_str(vs) =~= seq!['S'] + crate::text::deco_sites_code(
            vs[0],
        ) + seq![':'] + crate::text::mixed_spins_str(vs.drop_first()));
    }
}

proof fn lemma_mixed_modes_str_front(letter: char, vs: Seq<(Seq<usize>, Seq<usize>)>)
    requires
        vs.len() > 0,
    ensures
        crate::text::mixed_modes_str(letter, vs) == seq![letter] + crate::text::modes_code(
            vs[0].0,
            vs[0].1,
        ) + seq![':'] + crate::text::mixed_modes_str(letter, vs.drop_first()),
    decreases vs.len(),
{
    if vs.len() == 1 {
        assert(vs.drop_last() =~= Seq::<(Seq<usize>, Seq<usize>)>::empty());
        assert(vs.drop_first() =~= Seq::<(Seq<usize>, Seq<usize>)>::empty());
        assert(vs.last() == vs[0]);
        assert(crate::text::mixed_modes_str(letter, vs) =~= seq![letter]
            + crate::text::modes_code(vs[0].0, vs[0].1) + seq![':']
            + crate::text::mixed_modes_str(letter, vs.drop_first()));
    } else {
        lemma_mixed_modes_str_front(letter, vs.drop_last());
        assert(vs.drop_last()[0] == vs[0]);
        assert(vs.drop_last().drop_first() =~= vs.drop_first().drop_last());
        assert(vs.drop_first().last() == vs.last());
        assert(crate::text::mixed_modes_str(letter, vs.drop_first())
            == crate::text::mixed_modes_str(letter, vs.drop_first().drop_last()) + seq![letter]
            + crate::text::modes_code(vs.drop_first().last().0, vs.drop_first().last().1)
            + seq![':']);
        assert(crate::text::mixed_modes_str(letter, vs) =~= seq![letter]
            + crate::text::modes_code(vs[0].0, vs[0].1) + seq![':']
            + crate::text::mixed_modes_str(letter, vs.drop_first()));
    }
}

/// Parsing a rendered index run returns the indices, leaving the rest.
proof fn lemma_parse_mode_run_render(p: char, xs: Seq<usize>, rest: Seq<char>)
    requires
        !is_digit(p),
        rest.len() > 0 ==> rest[0] != p && !is_digit(rest[0]),
    ensures
        parse_mode_run(p, crate::text::modes_str(p, xs) + rest) == (xs, rest),
    decreases xs.len(),
{
    if xs.len() == 0 {
        assert(crate::text::modes_str(p, xs) + rest =~= rest);
        assert(parse_mode_run(p, rest) == (Seq::<usize>::empty(), rest));
        assert((Seq::<usize>::empty(), rest) == (xs, rest)) by {
            assert(xs =~= Seq::<usize>::empty());
        }
    } else {
        lemma_modes_str_front(p, xs);
        let tail_render = crate::text::modes_str(p, xs.drop_first()) + rest;
        let s = crate::text::modes_str(p, xs) + rest;
        assert(s =~= seq![p] + (dec_str(xs[0] as nat) + tail_render));
        assert(s[0] == p);
        assert(s.drop_first() =~= dec_str(xs[0] as nat) + tail_render);
        if xs.drop_first().len() > 0 {
            lemma_modes_str_front(p, xs.drop_first());
            assert(tail_render[0] == p);
        }
        lemma_parse_num_render(xs[0], tail_render);
        lemma_parse_mode_run_render(p, xs.drop_first(), rest);
        assert(tail_render.len() < s.len());
        assert(seq![xs[0]] + xs.drop_first() =~= xs);
    }
}

/// Parsing a rendered creation/annihilation body returns both index lists.
proof fn lemma_parse_modes_body_render(c: Seq<usize>, a: Seq<usize>, rest: Seq<char>)
    requires
        rest.len() > 0 ==> rest[0] != 'c' && rest[0] != 'a' && rest[0] != 'I' && !is_digit(
            rest[0],
        ),
    ensures
        parse_modes_body(crate::text::modes_code(c, a) + rest) == Option::Some(((c, a), rest)),
{
    if c.len() == 0 && a.len() == 0 {
        let s = crate::text::modes_code(c, a) + rest;
        assert(s =~= seq!['I'] + rest);
        assert(s[0] == 'I');
        assert(s.drop_first() =~= rest);
        assert((Seq::<usize>::empty(), Seq::<usize>::empty()) == (c, a)) by {
            assert(c =~= Seq::<usize>::empty());
            assert(a =~= Seq::<usize>::empty());
        }
    } else {
        let s = crate::text::modes_code(c, a) + rest;
        let a_render = crate::text::modes_str('a', a) + rest;
        assert(s =~= crate::text::modes_str('c', c) + a_render);
        if a.len() > 0 {
            lemma_modes_str_front('a', a);
            assert(a_render[0] == 'a');
        } else {
            assert(a_render =~= rest);
        }
        lemma_parse_mode_run_render('c', c, a_render);
        lemma_parse_mode_run_render('a', a, rest);
        if c.len() > 0 {
            lemma_modes_str_front('c', c);
            assert(s[0] == 'c');
            assert(s[0] != 'I');
        } else {
            assert(s =~= a_render);
            lemma_modes_str_front('a', a);
            assert(s[0] == 'a');
            assert(s[0] != 'I');
        }
    }
}

/// Parsing a rendered decoherence symbol returns its code.
proof fn lemma_parse_deco_sym_render(code: usize, rest: Seq<char>)
    requires
        code < 3,
    ensures
        parse_deco_sym(crate::text::deco_sym_str(code) + rest) == Option::Some((code, rest)),
{
    let s = crate::text::deco_sym_str(code) + rest;
    if code == 0 {
        assert(s[0] == 'X');
        assert(s.drop_first() =~= rest);
    } else if code == 1 {
        assert(s[0] == 'i');
        assert(s[1] == 'Y');
        assert(s.skip(2) =~= rest);
    } else {
        assert(s[0] == 'Z');
        assert(s.drop_first() =~= rest);
    }
}

/// Parsing a rendered site run returns the `(site, code)` pairs.
proof fn lemma_parse_deco_run_render(xs: Seq<(usize, usize)>, rest: Seq<char>)
    requires
        forall|i: int| 0 <= i < xs.len() ==> (#[trigger] xs[i]).1 < 3,
        rest.len() > 0 ==> !is_digit(rest[0]),
    ensures
        parse_deco_run(crate::text::deco_sites_str(xs) + rest) == (xs, rest),
    decreases xs.len(),
{
    if xs.len() == 0 {
        assert(crate::text::deco_sites_str(xs) + rest =~= rest);
        assert(parse_deco_run(rest) == (Seq::<(usize, usize)>::empty(), rest));
        assert((Seq::<(usize, usize)>::empty(), rest) == (xs, rest)) by {
            assert(xs =~= Seq::<(usize, usize)>::empty());
        }
    } else {
        lemma_deco_sites_str_front(xs);
        let tail_render = crate::text::deco_sites_str(xs.drop_first()) + rest;
        let sym_then = crate::text::deco_sym_str(xs[0].1) + tail_render;
        let s = crate::text::deco_sites_str(xs) + rest;
        assert(s =~= dec_str(xs[0].0 as nat) + sym_then);
        lemma_dec_str_digits(xs[0].0 as nat);
        assert(s[0] == dec_str(xs[0].0 as nat)[0]);
        assert(is_digit(s[0]));
        assert(sym_then[0] == crate::text::deco_sym_str(xs[0].1)[0]);
        assert(!is_digit(sym_then[0])) by {
            if xs[0].1 == 0 {
            } else if xs[0].1 == 1 {
            } else {
            }
        }
        lemma_parse_num_render(xs[0].0, sym_then);
        lemma_parse_deco_sym_render(xs[0].1, tail_render);
        assert(forall|i: int|
            0 <= i < xs.drop_first().len() ==> (#[trigger] xs.drop_first()[i]).1 < 3);
        lemma_parse_deco_run_render(xs.drop_first(), rest);
        if xs.drop_first().len() > 0 {
            lemma_deco_sites_str_front(xs.drop_first());
            lemma_dec_str_digits(xs.drop_first()[0].0 as nat);
            assert(tail_render[0] == dec_str(xs.drop_first()[0].0 as nat)[0]);
        }
        assert(tail_render.len() < s.len());
        assert(seq![xs[0]] + xs.drop_first() =~= xs);
    }
}

/// Parsing a rendered decoherence body returns its site list.
proof fn lemma_parse_deco_body_render(xs: Seq<(usize, usize)>, rest: Seq<char>)
    requires
        forall|i: int| 0 <= i < xs.len() ==> (#[trigger] xs[i]).1 < 3,
        rest.len() > 0 ==> rest[0] != 'I' && !is_digit(rest[0]),
    ensures
        parse_deco_body(crate::text::deco_sites_code(xs) + rest) == Option::Some((xs, rest)),
{
    if xs.len() == 0 {
        let s = crate::text::deco_sites_code(xs) + rest;
        assert(s =~= seq!['I'] + rest);
        assert(s[0] == 'I');
        assert(s.drop_first() =~= rest);
        assert(Option::Some((Seq::<(usize, usize)>::empty(), rest)) == Option::Some(
            (xs, rest),
        )) by {
            assert(xs =~= Seq::<(usize, usize)>::empty());
        }
    } else {
        lemma_parse_deco_run_render(xs, rest);
        let s = crate::text::deco_sites_code(xs) + rest;
        lemma_deco_sites_str_front(xs);
        lemma_dec_str_digits(xs[0].0 as nat);
        assert(s[0] == dec_str(xs[0].0 as nat)[0]);
        assert(is_digit(s[0]));
        assert(s[0] != 'I');
    }
}

/// Parsing rendered spin sections returns the per-subsystem site lists.
proof fn lemma_parse_spin_sections_render(vs: Seq<Seq<(usize, usize)>>, rest: Seq<char>)
    requires
        forall|k: int| 0 <= k < vs.len() ==> crate::spins::sites_wf(#[trigger] vs[k]),
        rest.len() > 0 ==> rest[0] != 'S',
    ensures
        parse_spin_sections(crate::text::mixed_spins_str(vs) + rest) == Option::Some((vs, rest)),
    decreases vs.len(),
{
    if vs.len() == 0 {
        assert(crate::text::mixed_spins_str(vs) + rest =~= rest);
        assert(vs =~= Seq::<Seq<(usize, usize)>>::empty());
    } else {
        lemma_mixed_spins_str_front(vs);
        let tail_render = crate::text::mixed_spins_str(vs.drop_first()) + rest;
        let body_then = crate::text::deco_sites_code(vs[0]) + (seq![':'] + tail_render);
        let s = crate::text::mixed_spins_str(vs) + rest;
        assert(s =~= seq!['S'] + body_then);
        assert(s[0] == 'S');
        assert(s.drop_first() =~= body_then);
        assert((seq![':'] + tail_render)[0] == ':');
        assert(crate::spins::sites_wf(vs[0]));
        lemma_parse_deco_body_render(vs[0], seq![':'] + tail_render);
        assert((seq![':'] + tail_render).drop_first() =~= tail_render);
        assert(forall|k: int|
            0 <= k < vs.drop_first().len() ==> crate::spins::sites_wf(
                #[trigger] vs.drop_first()[k],
            ));
        lemma_parse_spin_sections_render(vs.drop_first(), rest);
        if vs.drop_first().len() > 0 {
            lemma_mixed_spins_str_front(vs.drop_first());
            assert(tail_render[0] == 'S');
        }
        assert(tail_render.len() < s.len());
        assert(seq![vs[0]] + vs.drop_first() =~= vs);
    }
}

/// Parsing rendered boson or fermion sections returns the per-subsystem
/// index list pairs.
#[verifier::rlimit(100)]
proof fn lemma_parse_mode_sections_render(
    letter: char,
    vs: Seq<(Seq<usize>, Seq<usize>)>,
    rest: Seq<char>,
)
    requires
        letter == 'B' || letter == 'F',
        rest.len() > 0 ==> rest[0] != letter,
    ensures
        parse_mode_sections(letter, crate::text::mixed_modes_str(letter, vs) + rest)
            == Option::Some((vs, rest)),
    decreases vs.len(),
{
    if vs.len() == 0 {
        assert(crate::text::mixed_modes_str(letter, vs) + rest =~= rest);
        assert(vs =~= Seq::<(Seq<usize>, Seq<usize>)>::empty());
    } else {
        lemma_mixed_modes_str_front(letter, vs);
        let tail_render = crate::text::mixed_modes_str(letter, vs.drop_first()) + rest;
        let body_then = crate::text::modes_code(vs[0].0, vs[0].1) + (seq![':'] + tail_render);
        let s = crate::text::mixed_modes_str(letter, vs) + rest;
        assert(s =~= seq![letter] + body_then);
        assert(s[0] == letter);
        assert(s.drop_first() =~= body_then);
        assert((seq![':'] + tail_render)[0] == ':');
        lemma_parse_modes_body_render(vs[0].0, vs[0].1, seq![':'] + tail_render);
        assert((seq![':'] + tail_render).drop_first() =~= tail_render);
        lemma_parse_mode_sections_render(letter, vs.drop_first(), rest);
        if vs.drop_first().len() > 0 {
            lemma_mixed_modes_str_front(letter, vs.drop_first());
            assert(tail_render[0] == letter);
        }
        assert(tail_render.len() < s.len());
        assert(seq![vs[0]] + vs.drop_first() =~= vs);
    }
}

/// Round trip of the readable key rendering: parsing the canonical rendering
/// of a well-formed mixed product view returns exactly that view.
pub proof fn lemma_parse_mixed_render(v: crate::mixed::MixedView)
    requires
        crate::mixed::mixed_wf(v),
    ensures
        parse_mixed_view(crate::text::mixed_code(v)) == Option::Some(v),
{
    let s = crate::text::mixed_code(v);
    let b_render = crate::text::mixed_modes_str('B', v.1);
    let f_render = crate::text::mixed_modes_str('F', v.2);
    assert(s =~= crate::text::mixed_spins_str(v.0) + (b_render + f_render));
    if (b_render + f_render).len() > 0 {
        if b_render.len() > 0 {
            if v.1.len() > 0 {
                lemma_mixed_modes_str_front('B', v.1);
                assert((b_render + f_render)[0] == 'B');
            }
        } else {
            assert(b_render + f_render =~= f_render);
            if v.2.len() > 0 {
                lemma_mixed_modes_str_front('F', v.2);
                assert(f_render[0] == 'F');
            }
        }
    }
    lemma_parse_spin_sections_render(v.0, b_render + f_render);
    assert(b_render + f_render =~= b_render + f_render);
    if f_render.len() > 0 {
        if v.2.len() > 0 {
            lemma_mixed_modes_str_front('F', v.2);
            assert(f_render[0] == 'F');
        }
    }
    lemma_parse_mode_sections_render('B', v.1, f_render);
    lemma_parse_mode_sections_render('F', v.2, Seq::<char>::empty());
    assert(f_render + Seq::<char>::empty() =~= f_render);
    assert((v.0, v.1, v.2) == v);
}


/// Executable mirror of `parse_deco_sym`.
fn parse_deco_sym_at(s: &str, n: usize, pos: usize) -> (r: Option<(usize, usize)>)
    requires
        pos <= n,
        n == s@.len(),
    ensures
        match r {
            Some((code, np)) => pos < np <= n && parse_deco_sym(s@.skip(pos as int))
                == Option::Some((code, s@.skip(np as int))),
            None => parse_deco_sym(s@.skip(pos as int)) is None,
        },
{
    let ghost tail = s@.skip(pos as int);
    if pos >= n {
        return None;
    }
    let c = s.get_char(pos);
    proof {
        assert(tail[0] == s@[pos as int]);
    }
    if c == 'X' {
        proof {
            assert(tail.drop_first() =~= s@.skip(pos + 1));
        }
        return Some((0, pos + 1));
    }
    if c == 'i' {
        if pos + 1 < n {
            let c2 = s.get_char(pos + 1);
            proof {
                assert(tail[1] == s@[(pos + 1) as int]);
            }
            if c2 == 'Y' {
                proof {
                    assert(tail.skip(2) =~= s@.skip(pos + 2));
                }
                return Some((1, pos + 2));
            }
        }
        return None;
    }
    if c == 'Z' {
        proof {
            assert(tail.drop_first() =~= s@.skip(pos + 1));
        }
        return Some((2, pos + 1));
    }
    None
}

/// Executable mirror of `parse_deco_run`.
fn parse_deco_run_at(s: &str, n: usize, pos: usize) -> (r: (Vec<(usize, usize)>, usize))
    requires
        pos <= n,
        n == s@.len(),
    ensures
        pos <= r.1 <= n,
        parse_deco_run(s@.skip(pos as int)) == (r.0@, s@.skip(r.1 as int)),
    decreases n - pos,
{
    let ghost tail = s@.skip(pos as int);
    if pos < n && digit_of(s.get_char(pos)) < 10 {
        proof {
            assert(tail[0] == s@[pos as int]);
        }
        match parse_num_at(s, n, pos) {
            Some((v, p1)) => {
                match parse_deco_sym_at(s, n, p1) {
                    Some((code, p2)) => {
                        proof {
                            assert(s@.skip(p2 as int).len() < tail.len());
                        }
                        let pr = parse_deco_run_at(s, n, p2);
                        let mut items = pr.0;
                        items.insert(0, (v, code));
                        proof {
                            assert(items@ =~= seq![(v, code)] + items@.drop_first());
                        }
                        (items, pr.1)
                    },
                    None => {
                        let out: Vec<(usize, usize)> = Vec::new();
                        proof {
                            assert(out@ =~= Seq::<(usize, usize)>::empty());
                        }
                        (out, pos)
                    },
                }
            },
            None => {
                let out: Vec<(usize, usize)> = Vec::new();
                proof {
                    assert(out@ =~= Seq::<(usize, usize)>::empty());
                }
                (out, pos)
            },
        }
    } else {
        let out: Vec<(usize, usize)> = Vec::new();
        proof {
            if pos < n {
                assert(tail[0] == s@[pos as int]);
            }
            assert(out@ =~= Seq::<(usize, usize)>::empty());
        }
        (out, pos)
    }
}

/// Executable mirror of `parse_deco_body`.
fn parse_deco_body_at(s: &str, n: usize, pos: usize) -> (r: Option<(Vec<(usize, usize)>, usize)>)
    requires
        pos <= n,
        n == s@.len(),
    ensures
        match r {
            Some((items, np)) => pos <= np <= n && parse_deco_body(s@.skip(pos as int))
                == Option::Some((items@, s@.skip(np as int))),
            None => parse_deco_body(s@.skip(pos as int)) is None,
        },
{
    let ghost tail = s@.skip(pos as int);
    if pos < n && s.get_char(pos) == 'I' {
        proof {
            assert(tail[0] == s@[pos as int]);
            assert(tail.drop_first() =~= s@.skip(pos + 1));
        }
        let out: Vec<(usize, usize)> = Vec::new();
        proof {
            assert(out@ =~= Seq::<(usize, usize)>::empty());
        }
        return Some((out, pos + 1));
    }
    proof {
        if pos < n {
            assert(tail[0] == s@[pos as int]);
        }
    }
    let pr = parse_deco_run_at(s, n, pos);
    if pr.0.len() == 0 {
        None
    } else {
        Some(pr)
    }
}

/// Executable mirror of `parse_mode_run`.
fn parse_mode_run_at(prefix: char, s: &str, n: usize, pos: usize) -> (r: (Vec<usize>, usize))
    requires
        pos <= n,
        n == s@.len(),
    ensures
        pos <= r.1 <= n,
        parse_mode_run(prefix, s@.skip(pos as int)) == (r.0@, s@.skip(r.1 as int)),
    decreases n - pos,
{
    let ghost tail = s@.skip(pos as int);
    if pos < n && s.get_char(pos) == prefix {
        proof {
            assert(tail[0] == s@[pos as int]);
            assert(tail.drop_first() =~= s@.skip(pos + 1));
        }
        match parse_num_at(s, n, pos + 1) {
            Some((v, p1)) => {
                proof {
                    assert(s@.skip(p1 as int).len() < tail.len());
                }
                let pr = parse_mode_run_at(prefix, s, n, p1);
                let mut items = pr.0;
                items.insert(0, v);
                proof {
                    assert(items@ =~= seq![v] + items@.drop_first());
                }
                (items, pr.1)
            },
            None => {
                let out: Vec<usize> = Vec::new();
                proof {
                    assert(out@ =~= Seq::<usize>::empty());
                }
                (out, pos)
            },
        }
    } else {
        let out: Vec<usize> = Vec::new();
        proof {
            if pos < n {
                assert(tail[0] == s@[pos as int]);
            }
            assert(out@ =~= Seq::<usize>::empty());
        }
        (out, pos)
    }
}

/// Executable mirror of `parse_modes_body`.
fn parse_modes_body_at(s: &str, n: usize, pos: usize) -> (r: Option<
    ((Vec<usize>, Vec<usize>), usize),
>)
    requires
        pos <= n,
        n == s@.len(),
    ensures
        match r {
            Some((pair, np)) => pos <= np <= n && parse_modes_body(s@.skip(pos as int))
                == Option::Some(((pair.0@, pair.1@), s@.skip(np as int))),
            None => parse_modes_body(s@.skip(pos as int)) is None,
        },
{
    let ghost tail = s@.skip(pos as int);
    if pos < n && s.get_char(pos) == 'I' {
        proof {
            assert(tail[0] == s@[pos as int]);
            assert(tail.drop_first() =~= s@.skip(pos + 1));
        }
        let c: Vec<usize> = Vec::new();
        let a: Vec<usize> = Vec::new();
        proof {
            assert(c@ =~= Seq::<usize>::empty());
            assert(a@ =~= Seq::<usize>::empty());
        }
        return Some(((c, a), pos + 1));
    }
    proof {
        if pos < n {
            assert(tail[0] == s@[pos as int]);
        }
    }
    let pc = parse_mode_run_at('c', s, n, pos);
    let pa = parse_mode_run_at('a', s, n, pc.1);
    if pc.0.len() == 0 && pa.0.len() == 0 {
        None
    } else {
        Some(((pc.0, pa.0), pa.1))
    }
}

/// Executable mirror of `parse_spin_sections`.
fn parse_spin_sections_at(s: &str, n: usize, pos: usize) -> (r: Option<
    (Vec<Vec<(usize, usize)>>, usize),
>)
    requires
        pos <= n,
        n == s@.len(),
    ensures
        match r {
            Some((vs, np)) => pos <= np <= n && parse_spin_sections(s@.skip(pos as int))
                == Option::Some(
                (vs@.map_values(|x: Vec<(usize, usize)>| x@), s@.skip(np as int)),
            ),
            None => parse_spin_sections(s@.skip(pos as int)) is None,
        },
    decreases n - pos,
{
    let ghost tail = s@.skip(pos as int);
    if pos < n && s.get_char(pos) == 'S' {
        proof {
            assert(tail[0] == s@[pos as int]);
            assert(tail.drop_first() =~= s@.skip(pos + 1));
        }
        match parse_deco_body_at(s, n, pos + 1) {
            Some((items, p1)) => {
                if p1 < n && s.get_char(p1) == ':' {
                    proof {
                        assert(s@.skip(p1 as int)[0] == s@[p1 as int]);
                        assert(s@.skip(p1 as int).drop_first() =~= s@.skip(p1 + 1));
                        assert(s@.skip(p1 as int).len() < tail.len());
                    }
                    match parse_spin_sections_at(s, n, p1 + 1) {
                        Some((more, fin)) => {
                            let mut vs = more;
                            vs.insert(0, items);
                            proof {
                                assert(vs@.map_values(|x: Vec<(usize, usize)>| x@) =~= seq![
                                    vs@[0]@,
                                ] + vs@.drop_first().map_values(|x: Vec<(usize, usize)>| x@));
                                assert(vs@.drop_first() =~= vs@.skip(1));
                            }
                            Some((vs, fin))
                        },
                        None => None,
                    }
                } else {
                    proof {
                        if p1 < n {
                            assert(s@.skip(p1 as int)[0] == s@[p1 as int]);
                        } else {
                            assert(s@.skip(p1 as int).len() == 0);
                        }
                    }
                    None
                }
            },
            None => None,
        }
    } else {
        proof {
            if pos < n {
                assert(tail[0] == s@[pos as int]);
            }
        }
        let out: Vec<Vec<(usize, usize)>> = Vec::new();
        proof {
            assert(out@.map_values(|x: Vec<(usize, usize)>| x@) =~= Seq::<
                Seq<(usize, usize)>,
            >::empty());
        }
        Some((out, pos))
    }
}

/// Executable mirror of `parse_mode_sections`.
fn parse_mode_sections_at(letter: char, s: &str, n: usize, pos: usize) -> (r: Option<
    (Vec<(Vec<usize>, Vec<usize>)>, usize),
>)
    requires
        pos <= n,
        n == s@.len(),
    ensures
        match r {
            Some((vs, np)) => pos <= np <= n && parse_mode_sections(letter, s@.skip(pos as int))
                == Option::Some(
                (
                    vs@.map_values(|x: (Vec<usize>, Vec<usize>)| (x.0@, x.1@)),
                    s@.skip(np as int),
                ),
            ),
            None => parse_mode_sections(letter, s@.skip(pos as int)) is None,
        },
    decreases n - pos,
{
    let ghost tail = s@.skip(pos as int);
    if pos < n && s.get_char(pos) == letter {
        proof {
            assert(tail[0] == s@[pos as int]);
            assert(tail.drop_first() =~= s@.skip(pos + 1));
        }
        match parse_modes_body_at(s, n, pos + 1) {
            Some((pair, p1)) => {
                if p1 < n && s.get_char(p1) == ':' {
                    proof {
                        assert(s@.skip(p1 as int)[0] == s@[p1 as int]);
                        assert(s@.skip(p1 as int).drop_first() =~= s@.skip(p1 + 1));
                        assert(s@.skip(p1 as int).len() < tail.len());
                    }
                    match parse_mode_sections_at(letter, s, n, p1 + 1) {
                        Some((more, fin)) => {
                            let mut vs = more;
                            vs.insert(0, pair);
                            proof {
                                assert(vs@.map_values(
                                    |x: (Vec<usize>, Vec<usize>)| (x.0@, x.1@),
                                ) =~= seq![(vs@[0].0@, vs@[0].1@)] + vs@.drop_first().map_values(
                                    |x: (Vec<usize>, Vec<usize>)| (x.0@, x.1@),
                                ));
                                assert(vs@.drop_first() =~= vs@.skip(1));
                            }
                            Some((vs, fin))
                        },
                        None => None,
                    }
                } else {
                    proof {
                        if p1 < n {
                            assert(s@.skip(p1 as int)[0] == s@[p1 as int]);
                        } else {
                            assert(s@.skip(p1 as int).len() == 0);
                        }
                    }
                    None
                }
            },
            None => None,
        }
    } else {
        proof {
            if pos < n {
                assert(tail[0] == s@[pos as int]);
            }
        }
        let out: Vec<(Vec<usize>, Vec<usize>)> = Vec::new();
        proof {
            assert(out@.map_values(|x: (Vec<usize>, Vec<usize>)| (x.0@, x.1@)) =~= Seq::<
                (Seq<usize>, Seq<usize>),
            >::empty());
        }
        Some((out, pos))
    }
}

/// Parse a whole canonical mixed-key rendering into compact key data.
pub(crate) fn parse_mixed_key(s: &str) -> (r: Option<crate::serial::MixedKeyData>)
    ensures
        match r {
            Some(d) => parse_mixed_view(s@) == Option::Some(crate::serial::key_data_view(d)),
            None => parse_mixed_view(s@) is None,
        },
{
    let n = s.unicode_len();
    proof {
        assert(s@.skip(0) =~= s@);
    }
    let (spins, p1) = match parse_spin_sections_at(s, n, 0) {
        Some(x) => x,
        None => {
            return None;
        },
    };
    let (bosons, p2) = match parse_mode_sections_at('B', s, n, p1) {
        Some(x) => x,
        None => {
            return None;
        },
    };
    let (fermions, p3) = match parse_mode_sections_at('F', s, n, p2) {
        Some(x) => x,
        None => {
            return None;
        },
    };
    if p3 < n {
        return None;
    }
    let d = (spins, bosons, fermions);
    proof {
        assert(crate::serial::key_data_view(d) == (
            spins@.map_values(|x: Vec<(usize, usize)>| x@),
            bosons@.map_values(|x: (Vec<usize>, Vec<usize>)| (x.0@, x.1@)),
            fermions@.map_values(|x: (Vec<usize>, Vec<usize>)| (x.0@, x.1@)),
        )) by {
            assert(crate::serial::site_list_views(spins@) =~= spins@.map_values(
                |x: Vec<(usize, usize)>| x@,
            ));
            assert(crate::serial::mode_pair_views(bosons@) =~= bosons@.map_values(
                |x: (Vec<usize>, Vec<usize>)| (x.0@, x.1@),
            ));
            assert(crate::serial::mode_pair_views(fermions@) =~= fermions@.map_values(
                |x: (Vec<usize>, Vec<usize>)| (x.0@, x.1@),
            ));
        }
        assert(s@.skip(p3 as int).len() == 0);
    }
    Some(d)
}

} // verus!
