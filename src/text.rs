//! Text helpers: decimal digits, searching and splitting character sequences.

use vstd::prelude::*;
use vstd::string::{StrSliceExecFns, StringExecFns};

verus! {

/// The character of the decimal digit `d`.
pub open spec fn digit_char(d: int) -> char {
    (d + 48) as char
}

/// Decimal digits of `n`, without leading zeros.
pub open spec fn digits(n: nat) -> Seq<char>
    decreases n,
{
    if n < 10 {
        seq![digit_char(n as int)]
    } else {
        digits(n / 10).push(digit_char((n % 10) as int))
    }
}

/// `s` with zeros in front, so that it fills at least `width` characters.
pub open spec fn zero_padded(s: Seq<char>, width: nat) -> Seq<char> {
    if s.len() >= width {
        s
    } else {
        Seq::new((width - s.len()) as nat, |_i: int| '0') + s
    }
}

/// Position of the first occurrence of `pat` in `s` at or after `i`.
pub open spec fn find_from(s: Seq<char>, pat: Seq<char>, i: int) -> Option<int>
    decreases s.len() + 1 - i,
{
    if i < 0 || i + pat.len() > s.len() {
        None
    } else if s.subrange(i, i + pat.len()) == pat {
        Some(i)
    } else {
        find_from(s, pat, i + 1)
    }
}

/// The text before and the text after the first occurrence of `pat` in `s`.
pub open spec fn split_once(s: Seq<char>, pat: Seq<char>) -> Option<(Seq<char>, Seq<char>)> {
    match find_from(s, pat, 0) {
        Some(i) => Some((s.subrange(0, i), s.subrange(i + pat.len(), s.len() as int))),
        None => None,
    }
}

/// Relies on `String::push`: appends one character.
#[verifier::external_body]
pub(crate) fn push_char(s: &mut String, c: char)
    ensures
        final(s)@ == old(s)@.push(c),
{
    s.push(c)
}

/// Appends the decimal digits of `n`.
pub fn push_digits(out: &mut String, n: u64)
    ensures
        final(out)@ == old(out)@ + digits(n as nat),
    decreases n,
{
    if n >= 10 {
        push_digits(out, n / 10);
    }
    let d: u8 = (n % 10) as u8;
    push_char(out, (d + 48) as char);
    assert(out@ =~= old(out)@ + digits(n as nat));
}

/// Appends the decimal digits of `n`, with zeros in front to fill `width` characters.
pub fn push_padded(out: &mut String, n: u64, width: usize)
    ensures
        final(out)@ == old(out)@ + zero_padded(digits(n as nat), width as nat),
{
    let mut ds = String::new();
    push_digits(&mut ds, n);
    assert(ds@ =~= digits(n as nat));
    let len = ds.as_str().unicode_len();
    let pad: usize = if len < width { width - len } else { 0 };
    let mut i: usize = 0;
    while i < pad
        invariant
            pad == (if len < width { width - len } else { 0 }),
            i <= pad,
            out@ == old(out)@ + Seq::new(i as nat, |_i: int| '0'),
        decreases pad - i,
    {
        push_char(out, '0');
        i = i + 1;
        assert(out@ =~= old(out)@ + Seq::new(i as nat, |_i: int| '0'));
    }
    out.append(ds.as_str());
    assert(out@ =~= old(out)@ + zero_padded(digits(n as nat), width as nat));
}

/// The characters of `s`.
pub fn chars_of(s: &str) -> (r: Vec<char>)
    ensures
        r@ == s@,
{
    let n = s.unicode_len();
    let mut r: Vec<char> = Vec::new();
    let mut i: usize = 0;
    while i < n
        invariant
            n == s@.len(),
            i <= n,
            r@ == s@.subrange(0, i as int),
        decreases n - i,
    {
        r.push(s.get_char(i));
        i = i + 1;
        assert(r@ =~= s@.subrange(0, i as int));
    }
    assert(r@ =~= s@);
    r
}

/// Position of the first occurrence of `pat` in `s`.
pub fn find(s: &Vec<char>, pat: &Vec<char>) -> (r: Option<usize>)
    ensures
        match r {
            Some(i) => find_from(s@, pat@, 0) == Some(i as int),
            None => find_from(s@, pat@, 0) is None,
        },
        r matches Some(i) ==> i + pat@.len() <= s@.len(),
{
    let mut i: usize = 0;
    while pat.len() <= s.len() && i <= s.len() - pat.len()
        invariant
            find_from(s@, pat@, 0) == find_from(s@, pat@, i as int),
        decreases s.len() + 1 - i,
    {
        let mut k: usize = 0;
        let mut same = true;
        while k < pat.len()
            invariant
                i + pat.len() <= s.len(),
                k <= pat.len(),
                same <==> forall|j: int| 0 <= j < k ==> s@[i + j] == pat@[j],
            decreases pat.len() - k,
        {
            if s[i + k] != pat[k] {
                same = false;
            }
            k = k + 1;
        }
        if same {
            assert(s@.subrange(i as int, i + pat.len()) =~= pat@);
            return Some(i);
        }
        assert(s@.subrange(i as int, i + pat.len()) != pat@) by {
            let j = choose|j: int| 0 <= j < pat.len() && s@[i + j] != pat@[j];
            assert(s@.subrange(i as int, i + pat.len())[j] != pat@[j]);
        }
        i = i + 1;
    }
    None
}

/// No character of the text is a space.
pub open spec fn no_space(s: Seq<char>) -> bool {
    forall|i: int| 0 <= i < s.len() ==> s[i] != ' '
}

/// No character of the text is a hyphen.
pub open spec fn no_dash(s: Seq<char>) -> bool {
    forall|i: int| 0 <= i < s.len() ==> s[i] != '-'
}

pub proof fn lemma_digits_plain(n: nat)
    ensures
        no_space(digits(n)),
        no_dash(digits(n)),
    decreases n,
{
    if n >= 10 {
        lemma_digits_plain(n / 10);
    }
}

pub proof fn lemma_padded_plain(s: Seq<char>, w: nat)
    requires
        no_space(s),
        no_dash(s),
    ensures
        no_space(zero_padded(s, w)),
        no_dash(zero_padded(s, w)),
{
}

/// The first occurrence of `pat` at or after `i` is at `k`.
pub proof fn lemma_find_first(s: Seq<char>, pat: Seq<char>, i: int, k: int)
    requires
        0 <= i <= k,
        k + pat.len() <= s.len(),
        s.subrange(k, k + pat.len()) == pat,
        forall|j: int| i <= j < k ==> #[trigger] s.subrange(j, j + pat.len()) != pat,
    ensures
        find_from(s, pat, i) == Some(k),
    decreases k - i,
{
    if i < k {
        lemma_find_first(s, pat, i + 1, k);
    }
}

/// `pat` does not occur at or after `i`.
pub proof fn lemma_find_absent(s: Seq<char>, pat: Seq<char>, i: int)
    requires
        0 <= i,
        forall|j: int| i <= j && j + pat.len() <= s.len() ==> #[trigger] s.subrange(j, j + pat.len()) != pat,
    ensures
        find_from(s, pat, i) is None,
    decreases s.len() + 1 - i,
{
    if i + pat.len() <= s.len() {
        lemma_find_absent(s, pat, i + 1);
    }
}

/// Where `pat` is not found at or after `i`, it occurs nowhere there.
pub proof fn lemma_find_none_absent(s: Seq<char>, pat: Seq<char>, i: int)
    requires
        0 <= i,
        find_from(s, pat, i) is None,
    ensures
        forall|j: int| i <= j && j + pat.len() <= s.len() ==> #[trigger] s.subrange(j, j + pat.len()) != pat,
    decreases s.len() + 1 - i,
{
    if i + pat.len() <= s.len() {
        lemma_find_none_absent(s, pat, i + 1);
    }
}

/// A text without spaces, a space, and more: split at the first space.
pub proof fn lemma_split_space(x: Seq<char>, rest: Seq<char>)
    requires
        no_space(x),
    ensures
        split_once(x + seq![' '] + rest, seq![' ']) == Some((x, rest)),
{
    let s = x + seq![' '] + rest;
    let pat = seq![' '];
    assert forall|j: int| 0 <= j < x.len() implies #[trigger] s.subrange(j, j + pat.len()) != pat by {
        assert(s.subrange(j, j + 1)[0] == x[j]);
    }
    assert(s.subrange(x.len() as int, x.len() + 1 as int) =~= pat);
    lemma_find_first(s, pat, 0, x.len() as int);
    assert(s.subrange(0, x.len() as int) =~= x);
    assert(s.subrange(x.len() + 1 as int, s.len() as int) =~= rest);
}

} // verus!
