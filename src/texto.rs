//! Comparison and normalisation of texts.

use vstd::prelude::*;
use vstd::string::StringExecFns;

verus! {

/// Whether `s` and `t` hold the same characters.
pub fn texto_igual(s: &str, t: &str) -> (r: bool)
    ensures
        r == (s@ == t@),
{
    let n = s.unicode_len();
    if n != t.unicode_len() {
        return false;
    }
    let mut i: usize = 0;
    while i < n
        invariant
            n == s@.len(),
            n == t@.len(),
            i <= n,
            forall|j: int| 0 <= j < i ==> s@[j] == t@[j],
        decreases n - i,
    {
        if s.get_char(i) != t.get_char(i) {
            return false;
        }
        i = i + 1;
    }
    assert(s@ =~= t@);
    true
}

/// `a` sorts before `b`: compared character by character by code point, a
/// proper prefix first.
pub open spec fn texto_menor(a: Seq<char>, b: Seq<char>) -> bool
    decreases a.len(),
{
    if a.len() == 0 {
        b.len() > 0
    } else if b.len() == 0 {
        false
    } else if a[0] != b[0] {
        (a[0] as int) < (b[0] as int)
    } else {
        texto_menor(a.drop_first(), b.drop_first())
    }
}

/// Two different texts are ordered one way or the other, never both.
pub proof fn lemma_texto_total(a: Seq<char>, b: Seq<char>)
    ensures
        a != b ==> (texto_menor(a, b) || texto_menor(b, a)),
        !(texto_menor(a, b) && texto_menor(b, a)),
        !texto_menor(a, a),
    decreases a.len(),
{
    if a.len() > 0 && b.len() > 0 && a[0] != b[0] {
        assert((a[0] as int) != (b[0] as int));
    }
    if a.len() == 0 && b.len() == 0 {
        assert(a =~= b);
    }
    if a.len() > 0 && b.len() > 0 && a[0] == b[0] {
        lemma_texto_total(a.drop_first(), b.drop_first());
        if a != b {
            assert(a.drop_first() != b.drop_first()) by {
                if a.drop_first() == b.drop_first() {
                    assert(a =~= seq![a[0]] + a.drop_first());
                    assert(b =~= seq![b[0]] + b.drop_first());
                }
            }
        }
    }
    if a.len() > 0 {
        lemma_texto_total(a.drop_first(), a.drop_first());
    }
}

/// The order of texts is transitive.
pub proof fn lemma_texto_transitivo(a: Seq<char>, b: Seq<char>, c: Seq<char>)
    requires
        texto_menor(a, b),
        texto_menor(b, c),
    ensures
        texto_menor(a, c),
    decreases a.len(),
{
    if a.len() > 0 && b.len() > 0 && c.len() > 0 && a[0] == b[0] && b[0] == c[0] {
        lemma_texto_transitivo(a.drop_first(), b.drop_first(), c.drop_first());
    }
}

proof fn lemma_texto_prefijo(a: Seq<char>, b: Seq<char>, i: int)
    requires
        0 <= i <= a.len(),
        i <= b.len(),
        forall|j: int| 0 <= j < i ==> a[j] == b[j],
    ensures
        texto_menor(a, b) == texto_menor(a.subrange(i, a.len() as int), b.subrange(i, b.len() as int)),
    decreases i,
{
    if i > 0 {
        let a1 = a.drop_first();
        let b1 = b.drop_first();
        assert forall|j: int| 0 <= j < i - 1 implies a1[j] == b1[j] by {
            assert(a1[j] == a[j + 1] && b1[j] == b[j + 1]);
        }
        lemma_texto_prefijo(a1, b1, i - 1);
        assert(a1.subrange(i - 1, a1.len() as int) =~= a.subrange(i, a.len() as int));
        assert(b1.subrange(i - 1, b1.len() as int) =~= b.subrange(i, b.len() as int));
    } else {
        assert(a.subrange(0, a.len() as int) =~= a);
        assert(b.subrange(0, b.len() as int) =~= b);
    }
}

/// Whether `a` sorts before `b`; see `texto_menor`.
pub fn menor_texto(a: &str, b: &str) -> (r: bool)
    ensures
        r == texto_menor(a@, b@),
{
    let la = a.unicode_len();
    let lb = b.unicode_len();
    let mut i: usize = 0;
    while i < la && i < lb && a.get_char(i) == b.get_char(i)
        invariant
            la == a@.len(),
            lb == b@.len(),
            i <= la,
            i <= lb,
            forall|j: int| 0 <= j < i ==> a@[j] == b@[j],
        decreases la - i,
    {
        i = i + 1;
    }
    proof {
        lemma_texto_prefijo(a@, b@, i as int);
    }
    let ghost ra = a@.subrange(i as int, la as int);
    let ghost rb = b@.subrange(i as int, lb as int);
    if i == la {
        i < lb
    } else if i == lb {
        false
    } else {
        let ca = a.get_char(i);
        let cb = b.get_char(i);
        assert(ra[0] == ca && rb[0] == cb);
        ca < cb
    }
}

/// The text that `str::trim` leaves of `s`.
pub uninterp spec fn recorte(s: Seq<char>) -> Seq<char>;

/// Relies on `str::trim`: the text without its leading and trailing white
/// space, which depends on the characters alone and, being a part of the
/// text, is no longer than it.
#[verifier::external_body]
pub(crate) fn recortar(s: &str) -> (r: &str)
    ensures
        r@ == recorte(s@),
        r@.len() <= s@.len(),
{
    s.trim()
}

/// The text without leading and trailing white space.
pub fn norm_str(s: &str) -> (r: String)
    ensures
        r@ == recorte(s@),
{
    <String as StringExecFns>::from_str(recortar(s))
}

/// The trimmed text, or nothing when it is absent or blank.
pub fn norm_opt_string(s: Option<String>) -> (r: Option<String>)
    ensures
        match s {
            None => r is None,
            Some(x) => if recorte(x@).len() == 0 {
                r is None
            } else {
                r matches Some(y) && y@ == recorte(x@)
            },
        },
{
    match s {
        None => None,
        Some(x) => {
            let t = recortar(x.as_str());
            if t.unicode_len() == 0 {
                None
            } else {
                Some(<String as StringExecFns>::from_str(t))
            }
        },
    }
}

/// The trimmed text, or nothing when it is absent or blank.
pub fn norm_opt_str<'a>(s: Option<&'a str>) -> (r: Option<&'a str>)
    ensures
        match s {
            None => r is None,
            Some(x) => if recorte(x@).len() == 0 {
                r is None
            } else {
                r matches Some(y) && y@ == recorte(x@)
            },
        },
{
    match s {
        None => None,
        Some(x) => {
            let t = recortar(x);
            if t.unicode_len() == 0 {
                None
            } else {
                Some(t)
            }
        },
    }
}

} // verus!
