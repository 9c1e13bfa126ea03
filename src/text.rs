//! Generation and shrinking of characters and strings.
use vstd::prelude::*;

use vstd::std_specs::iter::IteratorSpec;

use crate::arbitrary::{lemma_map_push, Arbitrary};
use crate::gen::Gen;
use crate::numbers::{lemma_unsigned_shrinks_below, unsigned_shrinks};
use crate::sequences::{length_bound, models, seq_weight, vec_of_length, vec_shrinks};

verus! {

/// Whether `v` is the code of a Unicode scalar value.
pub open spec fn is_scalar(v: int) -> bool {
    (0 <= v < 0xD800) || (0xE000 <= v <= 0x10FFFF)
}

/// The values of `s` that are codes of Unicode scalar values, in order.
pub open spec fn scalar_values(s: Seq<int>) -> Seq<int>
    decreases s.len(),
{
    if s.len() == 0 {
        seq![]
    } else if is_scalar(s.last()) {
        scalar_values(s.drop_last()).push(s.last())
    } else {
        scalar_values(s.drop_last())
    }
}

/// What lies below a bound in `s` still does so after the filtering.
pub proof fn lemma_scalar_values_below(s: Seq<int>, bound: int)
    requires
        forall|i: int| 0 <= i < s.len() ==> 0 <= #[trigger] s[i] < bound,
    ensures
        forall|i: int|
            0 <= i < scalar_values(s).len() ==> 0 <= #[trigger] scalar_values(s)[i] < bound,
    decreases s.len(),
{
    if s.len() > 0 {
        let d = s.drop_last();
        assert forall|i: int| 0 <= i < d.len() implies 0 <= #[trigger] d[i] < bound by {
            assert(d[i] == s[i]);
        }
        lemma_scalar_values_below(d, bound);
        assert forall|i: int| 0 <= i < scalar_values(s).len() implies 0
            <= #[trigger] scalar_values(s)[i] < bound by {
            if is_scalar(s.last()) && i == scalar_values(d).len() {
                assert(scalar_values(s)[i] == s[s.len() - 1]);
            } else {
                assert(scalar_values(s)[i] == scalar_values(d)[i]);
            }
        }
    }
}

/// Relies on std's `char::from_u32`: `Some` exactly when `v` is the code of
/// a Unicode scalar value, with the character of that code.
#[verifier::external_body]
fn char_from_code(v: u32) -> (r: Option<char>)
    ensures
        match r {
            Some(c) => is_scalar(v as int) && c as u32 == v,
            None => !is_scalar(v as int),
        },
{
    char::from_u32(v)
}

/// Relies on std's `String` as `FromIterator<char>`: the characters of `v`,
/// in order.
#[verifier::external_body]
pub(crate) fn string_from_chars(v: Vec<char>) -> (r: String)
    ensures
        r@ == v@,
{
    v.into_iter().collect()
}

/// The characters of `s`, in order.
fn chars_of(s: &String) -> (r: Vec<char>)
    ensures
        r@ == s@,
{
    let mut it = s.as_str().chars();
    let mut r: Vec<char> = Vec::new();
    loop
        invariant
            it.obeys_prophetic_iter_laws(),
            it.decrease() is Some,
            r@ + it.remaining() == s@,
        decreases it.decrease()->0,
    {
        let ghost before = it.remaining();
        match it.next() {
            Some(c) => {
                let ghost prev = r@;
                r.push(c);
                assert(r@ + it.remaining() =~= prev + before);
            },
            None => {
                assert(r@ =~= s@);
                return r;
            },
        }
    }
}

/// The codes of the characters in `s`.
pub open spec fn codes(s: Seq<char>) -> Seq<int> {
    s.map_values(|c: char| c as u32 as int)
}

/// Characters often used in programming languages.
pub open spec fn programming_chars() -> Seq<char> {
    seq![
        ' ',
        ' ',
        ' ',
        '\t',
        '\n',
        '~',
        '`',
        '!',
        '@',
        '#',
        '$',
        '%',
        '^',
        '&',
        '*',
        '(',
        ')',
        '_',
        '-',
        '=',
        '+',
        '[',
        ']',
        '{',
        '}',
        ':',
        ';',
        '\'',
        '"',
        '\\',
        '|',
        ',',
        '<',
        '>',
        '.',
        '/',
        '?',
        '0',
        '1',
        '2',
        '3',
        '4',
        '5',
        '6',
        '7',
        '8',
        '9',
    ]
}

/// Deprecated, format, tag, private use and space characters.
pub open spec fn tricky_chars() -> Seq<char> {
    seq![
        '\u{0149}',
        '\u{fff0}',
        '\u{fff1}',
        '\u{fff2}',
        '\u{fff3}',
        '\u{fff4}',
        '\u{fff5}',
        '\u{fff6}',
        '\u{fff7}',
        '\u{fff8}',
        '\u{fff9}',
        '\u{fffA}',
        '\u{fffB}',
        '\u{fffC}',
        '\u{fffD}',
        '\u{fffE}',
        '\u{fffF}',
        '\u{0600}',
        '\u{0601}',
        '\u{0602}',
        '\u{0603}',
        '\u{0604}',
        '\u{0605}',
        '\u{061C}',
        '\u{06DD}',
        '\u{070F}',
        '\u{180E}',
        '\u{110BD}',
        '\u{1D173}',
        '\u{e0001}',
        '\u{e0020}',
        '\u{e000}',
        '\u{e001}',
        '\u{ef8ff}',
        '\u{f0000}',
        '\u{ffffd}',
        '\u{ffffe}',
        '\u{fffff}',
        '\u{100000}',
        '\u{10FFFD}',
        '\u{10FFFE}',
        '\u{10FFFF}',
        '\u{3000}',
        '\u{1680}',
    ]
}

/// The table of characters often used in programming languages.
fn programming_pool() -> (r: [char; 47])
    ensures
        r@ == programming_chars(),
{
    let pool: [char; 47] = [
        ' ',
        ' ',
        ' ',
        '\t',
        '\n',
        '~',
        '`',
        '!',
        '@',
        '#',
        '$',
        '%',
        '^',
        '&',
        '*',
        '(',
        ')',
        '_',
        '-',
        '=',
        '+',
        '[',
        ']',
        '{',
        '}',
        ':',
        ';',
        '\'',
        '"',
        '\\',
        '|',
        ',',
        '<',
        '>',
        '.',
        '/',
        '?',
        '0',
        '1',
        '2',
        '3',
        '4',
        '5',
        '6',
        '7',
        '8',
        '9',
    ];
    assert(pool@ =~= programming_chars());
    pool
}

/// The table of deprecated, format, tag, private use and space characters.
fn tricky_pool() -> (r: [char; 44])
    ensures
        r@ == tricky_chars(),
{
    let pool: [char; 44] = [
        '\u{0149}',
        '\u{fff0}',
        '\u{fff1}',
        '\u{fff2}',
        '\u{fff3}',
        '\u{fff4}',
        '\u{fff5}',
        '\u{fff6}',
        '\u{fff7}',
        '\u{fff8}',
        '\u{fff9}',
        '\u{fffA}',
        '\u{fffB}',
        '\u{fffC}',
        '\u{fffD}',
        '\u{fffE}',
        '\u{fffF}',
        '\u{0600}',
        '\u{0601}',
        '\u{0602}',
        '\u{0603}',
        '\u{0604}',
        '\u{0605}',
        '\u{061C}',
        '\u{06DD}',
        '\u{070F}',
        '\u{180E}',
        '\u{110BD}',
        '\u{1D173}',
        '\u{e0001}',
        '\u{e0020}',
        '\u{e000}',
        '\u{e001}',
        '\u{ef8ff}',
        '\u{f0000}',
        '\u{ffffd}',
        '\u{ffffe}',
        '\u{fffff}',
        '\u{100000}',
        '\u{10FFFD}',
        '\u{10FFFE}',
        '\u{10FFFF}',
        '\u{3000}',
        '\u{1680}',
    ];
    assert(pool@ =~= tricky_chars());
    pool
}

/// Whether the value `v` and the table character `picked` are ones that
/// `char::arbitrary` can draw for the roll `mode`.
pub open spec fn draw_fits(mode: int, v: int, picked: char) -> bool {
    if mode < 50 {
        0 <= v < 0xB0
    } else if mode < 60 {
        0 <= v < 0xF800
    } else if mode < 85 {
        programming_chars().contains(picked)
    } else if mode < 90 {
        tricky_chars().contains(picked)
    } else {
        0x2000 <= v < 0x2070
    }
}

/// The code of the character that the roll `mode`, the value `v` and the
/// table character `picked` stand for: ASCII and some control characters,
/// the Basic Multilingual Plane with the surrogates left out, the character
/// picked from one of the two tables, or general punctuation.
pub open spec fn drawn_code(mode: int, v: int, picked: char) -> int {
    if mode < 50 {
        v
    } else if mode < 60 {
        if v < 0xD800 {
            v
        } else {
            v + 0x800
        }
    } else if mode < 90 {
        picked as u32 as int
    } else {
        v
    }
}

/// The character that the roll `mode` (below 95), the value `v` drawn for
/// it and the character `picked` from its table stand for.
pub fn char_of_draw(mode: u64, v: u64, picked: char) -> (r: char)
    requires
        mode < 95,
        draw_fits(mode as int, v as int, picked),
    ensures
        r as u32 as int == drawn_code(mode as int, v as int, picked),
        60 <= mode < 90 ==> r == picked,
{
    if mode < 60 {
        let code = if mode < 50 || v < 0xD800 {
            v as u32
        } else {
            (v + 0x800) as u32
        };
        char_from_code(code).unwrap()
    } else if mode < 90 {
        picked
    } else {
        char_from_code(v as u32).unwrap()
    }
}

impl Arbitrary for char {
    type Model = int;

    open spec fn model(&self) -> int {
        *self as u32 as int
    }

    open spec fn shrink_spec(m: int) -> Seq<int> {
        if m < 0 {
            seq![]
        } else {
            scalar_values(unsigned_shrinks(m))
        }
    }

    open spec fn weight(m: int) -> nat {
        if m >= 0 {
            m as nat
        } else {
            0
        }
    }

    open spec fn within(m: int, size: nat) -> bool {
        true
    }

    proof fn lemma_shrink_lighter(m: int) {
        if m >= 0 {
            lemma_unsigned_shrinks_below(m);
            lemma_scalar_values_below(unsigned_shrinks(m), m);
        }
    }

    fn arbitrary(g: &mut Gen) -> (r: char) {
        let mode = g.gen_range(0, 100);
        if mode >= 95 {
            // any character at all
            return g.draw::<char>();
        }
        if mode >= 60 && mode < 90 {
            let picked = if mode < 85 {
                let pool = programming_pool();
                *g.pick(&pool).unwrap()
            } else {
                let pool = tricky_pool();
                *g.pick(&pool).unwrap()
            };
            return char_of_draw(mode, 0, picked);
        }
        let v = if mode < 50 {
            g.gen_range(0, 0xB0)
        } else if mode < 60 {
            g.gen_range(0, 0x10000 - 0x800)
        } else {
            g.gen_range(0x2000, 0x2070)
        };
        char_of_draw(mode, v, ' ')
    }

    fn shrink(&self) -> (r: Vec<char>) {
        let cands = (*self as u32).shrink();
        let ghost s = models(cands@);
        let mut r: Vec<char> = Vec::new();
        let mut k: usize = 0;
        assert(s.subrange(0, 0) =~= Seq::<int>::empty());
        assert(codes(r@) =~= scalar_values(s.subrange(0, 0)));
        while k < cands.len()
            invariant
                k <= cands@.len(),
                s == models(cands@),
                s == unsigned_shrinks(*self as u32 as int),
                codes(r@) == scalar_values(s.subrange(0, k as int)),
            decreases cands@.len() - k,
        {
            let v = cands[k];
            assert(s.subrange(0, k + 1).drop_last() =~= s.subrange(0, k as int));
            assert(s[k as int] == v as int);
            match char_from_code(v) {
                Some(c) => {
                    let ghost prev = r@;
                    r.push(c);
                    proof {
                        lemma_map_push(prev, c, |c: char| c as u32 as int);
                    }
                },
                None => {},
            }
            k += 1;
        }
        assert(s.subrange(0, k as int) =~= s);
        assert(r@.map_values(|x: char| x.model()) =~= codes(r@));
        r
    }

    fn duplicate(&self) -> (r: char) {
        *self
    }
}

/// A string of `n` characters drawn one after the other.
pub fn string_of_length(g: &mut Gen, n: u64) -> (r: String)
    ensures
        r@.len() == n,
        final(g).size_spec() == old(g).size_spec(),
{
    let v = vec_of_length::<char>(g, n);
    string_from_chars(v)
}

impl Arbitrary for String {
    type Model = Seq<int>;

    open spec fn model(&self) -> Seq<int> {
        codes(self@)
    }

    open spec fn shrink_spec(m: Seq<int>) -> Seq<Seq<int>> {
        vec_shrinks::<char>(m)
    }

    open spec fn weight(m: Seq<int>) -> nat {
        seq_weight::<char>(m)
    }

    open spec fn within(m: Seq<int>, size: nat) -> bool {
        m.len() < length_bound(size)
    }

    proof fn lemma_shrink_lighter(m: Seq<int>) {
        <Vec<char> as Arbitrary>::lemma_shrink_lighter(m);
        assert forall|i: int| 0 <= i < Self::shrink_spec(m).len() implies #[trigger] Self::weight(
            Self::shrink_spec(m)[i],
        ) < Self::weight(m) by {
            assert(<Vec<char> as Arbitrary>::weight(<Vec<char> as Arbitrary>::shrink_spec(m)[i])
                < <Vec<char> as Arbitrary>::weight(m));
        }
    }

    fn arbitrary(g: &mut Gen) -> (r: String) {
        let s = g.size();
        let bound: u64 = if s == 0 {
            1
        } else {
            s as u64
        };
        let n = g.gen_range(0, bound);
        string_of_length(g, n)
    }

    fn shrink(&self) -> (r: Vec<String>) {
        let chars = chars_of(self);
        assert(models(chars@) =~= codes(self@));
        let cands = chars.shrink();
        let ghost spec = vec_shrinks::<char>(codes(self@));
        let mut r: Vec<String> = Vec::new();
        let mut k: usize = 0;
        assert(r@.map_values(|x: String| codes(x@)) =~= spec.subrange(0, 0));
        while k < cands.len()
            invariant
                k <= cands@.len(),
                spec == vec_shrinks::<char>(codes(self@)),
                cands@.map_values(|x: Vec<char>| x.model()) == spec,
                r@.map_values(|x: String| codes(x@)) == spec.subrange(0, k as int),
            decreases cands@.len() - k,
        {
            let t = string_from_chars(cands[k].duplicate());
            proof {
                assert(cands@[k as int].model() == spec[k as int]);
                assert(codes(t@) =~= models(t@));
            }
            let ghost prev = r@;
            r.push(t);
            proof {
                lemma_map_push(prev, t, |x: String| codes(x@));
                assert(spec.subrange(0, k + 1) =~= spec.subrange(0, k as int).push(spec[k as int]));
            }
            k += 1;
        }
        assert(spec.subrange(0, k as int) =~= spec);
        assert(r@.map_values(|x: String| x.model()) =~= r@.map_values(|x: String| codes(x@)));
        r
    }

    fn duplicate(&self) -> (r: String) {
        self.clone()
    }
}

} // verus!
