use vstd::prelude::*;
use vstd::std_specs::iter::IteratorSpec;
use vstd::string::StrSliceExecFns;
use crate::csv_data_handle::texts;

verus! {

/// The pieces of `s` between occurrences of `d`, in order; there is always at least one.
pub open spec fn split_on(s: Seq<char>, d: char) -> Seq<Seq<char>>
    decreases s.len(),
{
    if s.len() == 0 {
        seq![Seq::empty()]
    } else {
        let prev = split_on(s.drop_last(), d);
        if s.last() == d {
            prev.push(Seq::empty())
        } else {
            prev.update(prev.len() - 1, prev.last().push(s.last()))
        }
    }
}

/// The pieces written one after another, with `d` between each two of them.
pub open spec fn join_with(parts: Seq<Seq<char>>, d: char) -> Seq<char>
    decreases parts.len(),
{
    if parts.len() == 0 {
        Seq::empty()
    } else if parts.len() == 1 {
        parts[0]
    } else {
        join_with(parts.drop_last(), d).push(d) + parts.last()
    }
}

/// No piece holds the character `d`.
pub open spec fn free_of(parts: Seq<Seq<char>>, d: char) -> bool {
    forall|i: int| 0 <= i < parts.len() ==> !(#[trigger] parts[i]).contains(d)
}

pub proof fn lemma_split_on_nonempty(s: Seq<char>, d: char)
    ensures
        split_on(s, d).len() >= 1,
    decreases s.len(),
{
    if s.len() > 0 {
        lemma_split_on_nonempty(s.drop_last(), d);
    }
}

/// Appending text free of `d` extends the last piece only.
proof fn lemma_split_on_extend(x: Seq<char>, y: Seq<char>, d: char)
    requires
        !y.contains(d),
    ensures
        split_on(x + y, d).len() == split_on(x, d).len(),
        split_on(x + y, d) == split_on(x, d).update(
            split_on(x, d).len() - 1,
            split_on(x, d).last() + y,
        ),
    decreases y.len(),
{
    lemma_split_on_nonempty(x, d);
    if y.len() == 0 {
        assert(x + y =~= x);
        assert(split_on(x, d).last() + y =~= split_on(x, d).last());
        assert(split_on(x, d).update(split_on(x, d).len() - 1, split_on(x, d).last())
            =~= split_on(x, d));
    } else {
        let y0 = y.drop_last();
        assert(!y0.contains(d)) by {
            if y0.contains(d) {
                let k = choose|k: int| 0 <= k < y0.len() && y0[k] == d;
                assert(y[k] == d);
            }
        }
        lemma_split_on_extend(x, y0, d);
        assert((x + y).drop_last() =~= x + y0);
        assert((x + y).last() == y.last());
        assert(y.last() != d) by {
            assert(y[y.len() - 1] == y.last());
        }
        assert(split_on(x, d).last() + y =~= (split_on(x, d).last() + y0).push(y.last()));
        assert(split_on(x + y, d) =~= split_on(x, d).update(
            split_on(x, d).len() - 1,
            split_on(x, d).last() + y,
        ));
    }
}

/// Splitting pieces that were joined with `d` gives the pieces back, when none holds `d`.
pub proof fn lemma_split_join(parts: Seq<Seq<char>>, d: char)
    requires
        parts.len() >= 1,
        free_of(parts, d),
    ensures
        split_on(join_with(parts, d), d) == parts,
    decreases parts.len(),
{
    if parts.len() == 1 {
        assert(!parts[0].contains(d));
        lemma_split_on_extend(Seq::empty(), parts[0], d);
        assert(Seq::<char>::empty() + parts[0] =~= parts[0]);
        assert(split_on(Seq::empty(), d) =~= seq![Seq::<char>::empty()]);
        assert(split_on(parts[0], d) =~= parts);
    } else {
        let init = parts.drop_last();
        assert(free_of(init, d)) by {
            assert forall|i: int| 0 <= i < init.len() implies !(#[trigger] init[i]).contains(d) by {
                assert(init[i] == parts[i]);
            }
        }
        lemma_split_join(init, d);
        let j = join_with(init, d).push(d);
        assert(j.drop_last() =~= join_with(init, d));
        assert(split_on(j, d) == init.push(Seq::empty()));
        assert(!parts.last().contains(d)) by {
            assert(parts[parts.len() - 1] == parts.last());
        }
        lemma_split_on_extend(j, parts.last(), d);
        assert(Seq::<char>::empty() + parts.last() =~= parts.last());
        assert(split_on(join_with(parts, d), d) =~= parts);
    }
}

/// Relies on `String::push`: appends one character.
#[verifier::external_body]
pub(crate) fn push_char(s: &mut String, c: char)
    ensures
        final(s)@ == old(s)@.push(c),
{
    s.push(c);
}

/// Whether two texts are equal, compared character by character.
pub fn str_eq(a: &str, b: &str) -> (r: bool)
    ensures
        r == (a@ == b@),
{
    broadcast use vstd::string::group_string_axioms;

    let n = a.unicode_len();
    if n != b.unicode_len() {
        return false;
    }
    let mut ai = a.chars();
    let mut bi = b.chars();
    let mut i: usize = 0;
    while i < n
        invariant
            a@.len() == n,
            b@.len() == n,
            0 <= i <= n,
            ai.remaining() == a@.skip(i as int),
            bi.remaining() == b@.skip(i as int),
            forall|j: int| 0 <= j < i ==> a@[j] == b@[j],
        decreases n - i,
    {
        let ca = ai.next();
        let cb = bi.next();
        if ca != cb {
            return false;
        }
        i += 1;
    }
    assert(a@ =~= b@);
    true
}

/// Splits `s` at every occurrence of `d`.
pub fn split_by(s: &str, d: char) -> (r: Vec<String>)
    ensures
        texts(r@) == split_on(s@, d),
{
    broadcast use vstd::string::group_string_axioms;

    let n = s.unicode_len();
    let mut it = s.chars();
    let mut parts: Vec<String> = Vec::new();
    let mut cur = String::new();
    let mut i: usize = 0;
    while i < n
        invariant
            s@.len() == n,
            0 <= i <= n,
            it.remaining() == s@.skip(i as int),
            texts(parts@).push(cur@) == split_on(s@.take(i as int), d),
        decreases n - i,
    {
        let ghost before = texts(parts@).push(cur@);
        let c = it.next().unwrap();
        assert(c == s@[i as int]);
        assert(s@.take(i + 1).drop_last() =~= s@.take(i as int));
        assert(s@.take(i + 1).last() == c);
        if c == d {
            let done = cur;
            cur = String::new();
            parts.push(done);
            assert(texts(parts@).push(cur@) =~= before.push(Seq::empty()));
        } else {
            push_char(&mut cur, c);
            assert(texts(parts@).push(cur@) =~= before.update(
                before.len() - 1,
                before.last().push(c),
            ));
        }
        i += 1;
    }
    assert(s@.take(n as int) =~= s@);
    parts.push(cur);
    assert(texts(parts@) =~= split_on(s@, d));
    parts
}

/// The decimal digit for `d`, which is below ten.
pub open spec fn digit_char(d: nat) -> char {
    if d == 0 { '0' }
    else if d == 1 { '1' }
    else if d == 2 { '2' }
    else if d == 3 { '3' }
    else if d == 4 { '4' }
    else if d == 5 { '5' }
    else if d == 6 { '6' }
    else if d == 7 { '7' }
    else if d == 8 { '8' }
    else { '9' }
}

/// `n` written in decimal, without leading zeros.
pub open spec fn decimal(n: nat) -> Seq<char>
    decreases n,
{
    if n < 10 {
        seq![digit_char(n)]
    } else {
        decimal(n / 10).push(digit_char(n % 10))
    }
}

fn digit_of(d: usize) -> (c: char)
    requires
        d < 10,
    ensures
        c == digit_char(d as nat),
{
    if d == 0 { '0' }
    else if d == 1 { '1' }
    else if d == 2 { '2' }
    else if d == 3 { '3' }
    else if d == 4 { '4' }
    else if d == 5 { '5' }
    else if d == 6 { '6' }
    else if d == 7 { '7' }
    else if d == 8 { '8' }
    else { '9' }
}

/// Appends `n` in decimal to `out`.
pub fn push_decimal(out: &mut String, n: usize)
    ensures
        final(out)@ == old(out)@ + decimal(n as nat),
    decreases n,
{
    if n >= 10 {
        push_decimal(out, n / 10);
    }
    push_char(out, digit_of(n % 10));
    assert(out@ =~= old(out)@ + decimal(n as nat));
}

/// The text before the first `d` and the text after it, or `None` where `s` holds no `d`.
pub open spec fn split_once(s: Seq<char>, d: char) -> Option<(Seq<char>, Seq<char>)> {
    let pieces = split_on(s, d);
    if pieces.len() <= 1 {
        None
    } else {
        Some((pieces[0], join_with(pieces.drop_first(), d)))
    }
}

/// The pieces from position one on, joined with `d`.
fn join_tail(parts: &Vec<String>, d: char) -> (r: String)
    requires
        parts@.len() >= 1,
    ensures
        r@ == join_with(texts(parts@).drop_first(), d),
{
    let ghost all = texts(parts@);
    let mut out = String::new();
    let mut i: usize = 1;
    assert(all.subrange(1, 1) =~= Seq::<Seq<char>>::empty());
    while i < parts.len()
        invariant
            all == texts(parts@),
            1 <= i <= parts@.len(),
            out@ == join_with(all.subrange(1, i as int), d),
        decreases parts.len() - i,
    {
        if i > 1 {
            push_char(&mut out, d);
        }
        out.append(parts[i].as_str());
        proof {
            let t = all.subrange(1, i + 1);
            assert(t.drop_last() =~= all.subrange(1, i as int));
            assert(t.last() == parts@[i as int]@);
            assert(out@ =~= join_with(t, d));
        }
        i += 1;
    }
    assert(all.subrange(1, parts@.len() as int) =~= all.drop_first());
    out
}

/// Splits `s` at its first `d`.
pub fn split_once_at(s: &str, d: char) -> (r: Option<(String, String)>)
    ensures
        match split_once(s@, d) {
            None => r is None,
            Some(p) => r is Some && r->Some_0.0@ == p.0 && r->Some_0.1@ == p.1,
        },
{
    let pieces = split_by(s, d);
    if pieces.len() <= 1 {
        return None;
    }
    assert(texts(pieces@)[0] == pieces@[0]@);
    let head = pieces[0].clone();
    let tail = join_tail(&pieces, d);
    Some((head, tail))
}

/// `c` is an ASCII decimal digit.
pub open spec fn is_digit(c: char) -> bool {
    '0' <= c <= '9'
}

/// The number that a sequence of decimal digits denotes.
pub open spec fn digits_value(s: Seq<char>) -> nat
    decreases s.len(),
{
    if s.len() == 0 {
        0
    } else {
        digits_value(s.drop_last()) * 10 + ((s.last() as u32) - ('0' as u32)) as nat
    }
}

/// The digits of an unsigned number: the text without one leading plus sign.
pub open spec fn unsigned_digits(s: Seq<char>) -> Seq<char> {
    if s.len() > 0 && s[0] == '+' {
        s.drop_first()
    } else {
        s
    }
}

/// The value of `s` read as an unsigned decimal number that fits in `usize`, if it is one.
pub open spec fn usize_of(s: Seq<char>) -> Option<usize> {
    let d = unsigned_digits(s);
    if d.len() > 0 && (forall|i: int| 0 <= i < d.len() ==> is_digit(#[trigger] d[i])) && digits_value(
        d,
    ) <= usize::MAX {
        Some(digits_value(d) as usize)
    } else {
        None
    }
}

/// A longer run of digits denotes at least as much as its beginning.
proof fn lemma_digits_value_grows(s: Seq<char>, k: int)
    requires
        0 <= k <= s.len(),
        forall|i: int| 0 <= i < s.len() ==> is_digit(#[trigger] s[i]),
    ensures
        digits_value(s.take(k)) <= digits_value(s),
    decreases s.len(),
{
    if k < s.len() {
        let init = s.drop_last();
        assert forall|i: int| 0 <= i < init.len() implies is_digit(#[trigger] init[i]) by {
            assert(init[i] == s[i]);
        }
        lemma_digits_value_grows(init, k);
        assert(init.take(k) =~= s.take(k));
    } else {
        assert(s.take(k) =~= s);
    }
}

/// The characters of `s`, in order.
pub fn chars_of(s: &str) -> (r: Vec<char>)
    ensures
        r@ == s@,
{
    broadcast use vstd::string::group_string_axioms;

    let n = s.unicode_len();
    let mut it = s.chars();
    let mut out: Vec<char> = Vec::new();
    let mut i: usize = 0;
    while i < n
        invariant
            s@.len() == n,
            0 <= i <= n,
            it.remaining() == s@.skip(i as int),
            out@ == s@.take(i as int),
        decreases n - i,
    {
        let c = it.next().unwrap();
        out.push(c);
        assert(out@ =~= s@.take(i + 1));
        i += 1;
    }
    assert(s@.take(n as int) =~= s@);
    out
}

/// Reads `s` as an unsigned decimal number, as `str::parse::<usize>` does: an optional
/// leading `+`, then one or more ASCII digits, with a value that fits in `usize`.
pub fn parse_usize(s: &str) -> (r: Option<usize>)
    ensures
        r == usize_of(s@),
{
    let cs = chars_of(s);
    let start: usize = if cs.len() > 0 && cs[0] == '+' {
        1
    } else {
        0
    };
    let ghost d = unsigned_digits(s@);
    assert(d =~= cs@.skip(start as int));
    if start == cs.len() {
        assert(d.len() == 0);
        return None;
    }
    let mut i: usize = start;
    while i < cs.len()
        invariant
            cs@ == s@,
            d == unsigned_digits(s@),
            d == cs@.skip(start as int),
            start <= i <= cs@.len(),
            forall|j: int| start <= j < i ==> is_digit(#[trigger] cs@[j]),
        decreases cs.len() - i,
    {
        if !(cs[i] >= '0' && cs[i] <= '9') {
            assert(!is_digit(d[i - start]));
            return None;
        }
        i += 1;
    }
    assert(forall|j: int| 0 <= j < d.len() ==> is_digit(#[trigger] d[j])) by {
        assert forall|j: int| 0 <= j < d.len() implies is_digit(#[trigger] d[j]) by {
            assert(d[j] == cs@[j + start]);
        }
    }
    let mut value: usize = 0;
    let mut k: usize = start;
    assert(d.take(0) =~= Seq::<char>::empty());
    while k < cs.len()
        invariant
            cs@ == s@,
            d == unsigned_digits(s@),
            d == cs@.skip(start as int),
            forall|j: int| 0 <= j < d.len() ==> is_digit(#[trigger] d[j]),
            start <= k <= cs@.len(),
            value as nat == digits_value(d.take(k - start)),
        decreases cs.len() - k,
    {
        proof {
            assert(d[k - start] == cs@[k as int]);
            assert(is_digit(d[k - start]));
        }
        let digit = (cs[k] as u32 - '0' as u32) as usize;
        proof {
            assert(d[k - start] == cs@[k as int]);
            assert(is_digit(d[k - start]));
            let t = d.take(k - start + 1);
            assert(t.drop_last() =~= d.take(k - start));
            assert(t.last() == cs@[k as int]);
            lemma_digits_value_grows(d, k - start + 1);
        }
        let next = match value.checked_mul(10) {
            Some(v) => v.checked_add(digit),
            None => None,
        };
        match next {
            Some(v) => {
                value = v;
            },
            None => {
                proof {
                    let t = d.take(k - start + 1);
                    assert(digits_value(t) == value as nat * 10 + digit as nat);
                    assert(digits_value(t) > usize::MAX);
                }
                return None;
            },
        }
        k += 1;
    }
    assert(d.take(d.len() as int) =~= d);
    Some(value)
}

} // verus!
