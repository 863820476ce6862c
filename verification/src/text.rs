//! Operations on text that the generators need.
use vstd::prelude::*;

verus! {

/// What `str::to_lowercase` makes of a text.
pub uninterp spec fn lowercase(s: Seq<char>) -> Seq<char>;

/// What `str::to_uppercase` makes of a text.
pub uninterp spec fn uppercase(s: Seq<char>) -> Seq<char>;

/// The decimal digit of a number below ten.
pub open spec fn digit(d: nat) -> char {
    if d == 0 { '0' } else if d == 1 { '1' } else if d == 2 { '2' } else if d == 3 { '3' }
    else if d == 4 { '4' } else if d == 5 { '5' } else if d == 6 { '6' } else if d == 7 { '7' }
    else if d == 8 { '8' } else { '9' }
}

/// The decimal digits of a natural number, without leading zeros.
pub open spec fn digits(n: nat) -> Seq<char>
    decreases n,
{
    if n < 10 {
        seq![digit(n)]
    } else {
        digits(n / 10).push(digit(n % 10))
    }
}

/// The decimal text of an integer: a minus sign before the digits of a
/// negative one.
pub open spec fn integer_text(i: int) -> Seq<char> {
    if i < 0 {
        seq!['-'] + digits((-i) as nat)
    } else {
        digits(i as nat)
    }
}

/// `str::to_lowercase`.
#[verifier::external_body]
pub(crate) fn to_lowercase(s: &str) -> (res: String)
    ensures
        res@ == lowercase(s@),
{
    s.to_lowercase()
}

/// `str::to_uppercase`.
#[verifier::external_body]
pub(crate) fn to_uppercase(s: &str) -> (res: String)
    ensures
        res@ == uppercase(s@),
{
    s.to_uppercase()
}

/// The character of a decimal digit.
fn digit_char(d: u128) -> (c: char)
    requires
        d < 10,
    ensures
        c == digit(d as nat),
{
    if d == 0 { '0' } else if d == 1 { '1' } else if d == 2 { '2' } else if d == 3 { '3' }
    else if d == 4 { '4' } else if d == 5 { '5' } else if d == 6 { '6' } else if d == 7 { '7' }
    else if d == 8 { '8' } else { '9' }
}

/// The text `s` followed by the decimal digits of `n`.
fn push_digits(s: String, n: u128) -> (res: String)
    ensures
        res@ == s@ + digits(n as nat),
    decreases n,
{
    if n < 10 {
        let r = push_char(s, digit_char(n));
        proof {
            assert(r@ =~= s@ + digits(n as nat));
        }
        r
    } else {
        let ghost start = s@;
        let t = push_digits(s, n / 10);
        let r = push_char(t, digit_char(n % 10));
        proof {
            assert(digits(n as nat) == digits((n / 10) as nat).push(digit((n % 10) as nat)));
            assert(r@ =~= start + digits(n as nat));
        }
        r
    }
}

/// The decimal text of an integer, as `i128::to_string` writes it.
pub fn integer_to_string(i: i128) -> (res: String)
    ensures
        res@ == integer_text(i as int),
{
    if i < 0 {
        let m: i128 = -(i + 1);
        let n: u128 = (m as u128) + 1;
        proof {
            reveal_strlit("-");
            assert(n == -i);
        }
        let r = push_digits(String::from_str("-"), n);
        proof {
            assert("-"@ =~= seq!['-']);
        }
        r
    } else {
        let r = push_digits(String::new(), i as u128);
        proof {
            assert(r@ =~= digits(i as nat));
        }
        r
    }
}

/// The text `a` followed by `b`.
pub fn concat(a: &str, b: &str) -> (res: String)
    ensures
        res@ == a@ + b@,
{
    let mut r = String::from_str(a);
    r.append(b);
    r
}

/// The texts `a`, `b` and `c` one after the other.
pub fn concat3(a: &str, b: &str, c: &str) -> (res: String)
    ensures
        res@ == a@ + b@ + c@,
{
    let mut r = String::from_str(a);
    r.append(b);
    r.append(c);
    r
}

/// Whether two texts are the same.
pub fn text_eq(a: &str, b: &str) -> (res: bool)
    ensures
        res == (a@ == b@),
{
    let n = a.unicode_len();
    if n != b.unicode_len() {
        return false;
    }
    let mut i: usize = 0;
    while i < n
        invariant
            n == a@.len(),
            n == b@.len(),
            i <= n,
            forall|j: int| 0 <= j < i ==> a@[j] == b@[j],
        decreases n - i,
    {
        if a.get_char(i) != b.get_char(i) {
            return false;
        }
        i = i + 1;
    }
    assert(a@ =~= b@);
    true
}

/// The pieces of `s` between the occurrences of `sep`, as `str::split` gives
/// them: there is always at least one, and two separators in a row, or one at
/// either end, give an empty piece.
pub open spec fn split_spec(s: Seq<char>, sep: char) -> Seq<Seq<char>>
    decreases s.len(),
{
    if s.len() == 0 {
        seq![Seq::empty()]
    } else {
        let rest = split_spec(s.drop_last(), sep);
        if s.last() == sep {
            rest.push(Seq::empty())
        } else {
            rest.update(rest.len() - 1, rest.last().push(s.last()))
        }
    }
}

/// Splitting always gives at least one piece.
pub proof fn lemma_split_nonempty(s: Seq<char>, sep: char)
    ensures
        split_spec(s, sep).len() >= 1,
    decreases s.len(),
{
    if s.len() > 0 {
        lemma_split_nonempty(s.drop_last(), sep);
    }
}

/// `s.split(sep)`, collected.
pub fn split(s: &str, sep: char) -> (res: Vec<String>)
    ensures
        res@.len() == split_spec(s@, sep).len(),
        forall|i: int| 0 <= i < res@.len() ==> #[trigger] res@[i]@ == split_spec(s@, sep)[i],
{
    let n = s.unicode_len();
    let mut pieces: Vec<String> = Vec::new();
    let mut current = String::new();
    let mut i: usize = 0;
    proof {
        assert(s@.take(0) =~= Seq::<char>::empty());
    }
    while i < n
        invariant
            n == s@.len(),
            i <= n,
            pieces@.len() + 1 == split_spec(s@.take(i as int), sep).len(),
            forall|j: int| 0 <= j < pieces@.len() ==> #[trigger] pieces@[j]@ == split_spec(s@.take(i as int), sep)[j],
            current@ == split_spec(s@.take(i as int), sep).last(),
        decreases n - i,
    {
        let c = s.get_char(i);
        proof {
            let t = s@.take(i + 1);
            assert(t.drop_last() =~= s@.take(i as int));
            assert(t.last() == c);
            lemma_split_nonempty(s@.take(i as int), sep);
        }
        if c == sep {
            pieces.push(current);
            current = String::new();
        } else {
            current = push_char(current, c);
        }
        i = i + 1;
    }
    proof {
        assert(s@.take(n as int) =~= s@);
    }
    pieces.push(current);
    proof {
        lemma_split_nonempty(s@, sep);
        assert forall|j: int| 0 <= j < pieces@.len() implies #[trigger] pieces@[j]@ == split_spec(s@, sep)[j] by {
        }
    }
    pieces
}

/// `String::push`.
#[verifier::external_body]
pub(crate) fn push_char(s: String, c: char) -> (res: String)
    ensures
        res@ == s@.push(c),
{
    let mut s = s;
    s.push(c);
    s
}

/// Splitting a text joined at a separator splits both parts.
pub proof fn lemma_split_join(s: Seq<char>, t: Seq<char>, sep: char)
    ensures
        split_spec(s.push(sep) + t, sep) == split_spec(s, sep) + split_spec(t, sep),
    decreases t.len(),
{
    let u = s.push(sep) + t;
    if t.len() == 0 {
        assert(u =~= s.push(sep));
        assert(u.drop_last() =~= s);
        assert(split_spec(u, sep) =~= split_spec(s, sep) + split_spec(t, sep));
    } else {
        assert(u.drop_last() =~= s.push(sep) + t.drop_last());
        lemma_split_join(s, t.drop_last(), sep);
        lemma_split_nonempty(t.drop_last(), sep);
        lemma_split_nonempty(s, sep);
        let a = split_spec(s, sep);
        let b = split_spec(t.drop_last(), sep);
        assert(u.last() == t.last());
        if t.last() == sep {
            assert(split_spec(u, sep) =~= a + b.push(Seq::empty()));
        } else {
            assert((a + b).update((a + b).len() - 1, (a + b).last().push(t.last()))
                =~= a + b.update(b.len() - 1, b.last().push(t.last())));
        }
    }
}

/// A text without the separator is one piece.
pub proof fn lemma_split_single(t: Seq<char>, sep: char)
    requires
        !t.contains(sep),
    ensures
        split_spec(t, sep) == seq![t],
    decreases t.len(),
{
    if t.len() == 0 {
        assert(t =~= Seq::<char>::empty());
        assert(split_spec(t, sep) =~= seq![t]);
    } else {
        assert(!t.drop_last().contains(sep)) by {
            if t.drop_last().contains(sep) {
                let i = choose|i: int| 0 <= i < t.drop_last().len() && t.drop_last()[i] == sep;
                assert(t[i] == sep);
            }
        }
        lemma_split_single(t.drop_last(), sep);
        assert(t.last() != sep) by {
            assert(t[t.len() - 1] == t.last());
        }
        assert(t.drop_last().push(t.last()) =~= t);
        assert(seq![t.drop_last()].update(0, t.drop_last().push(t.last())) =~= seq![t]);
    }
}

} // verus!
