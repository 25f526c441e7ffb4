use vstd::prelude::*;
use vstd::std_specs::iter::IteratorSpec;

verus! {

/// Unicode's `White_Space` property, which `char::is_whitespace` tests.
pub open spec fn is_ws(c: char) -> bool {
    let u = c as u32;
    (0x09 <= u <= 0x0d) || u == 0x20 || u == 0x85 || u == 0xa0 || u == 0x1680 || (0x2000 <= u
        <= 0x200a) || u == 0x2028 || u == 0x2029 || u == 0x202f || u == 0x205f || u == 0x3000
}

/// The whitespace-separated words of `s`, as `str::split_whitespace` gives them.
pub open spec fn tokens(s: Seq<char>) -> Seq<Seq<char>>
    decreases s.len(),
{
    if s.len() == 0 {
        Seq::empty()
    } else {
        let r = tokens(s.drop_last());
        if is_ws(s.last()) {
            r
        } else if s.len() >= 2 && !is_ws(s[s.len() - 2]) {
            r.update(r.len() - 1, r.last().push(s.last()))
        } else {
            r.push(seq![s.last()])
        }
    }
}

/// The pieces of `s` between the separators `sep`, as `str::split` gives
/// them: one more piece than there are separators.
pub open spec fn split_on(s: Seq<char>, sep: char) -> Seq<Seq<char>>
    decreases s.len(),
{
    if s.len() == 0 {
        seq![Seq::empty()]
    } else {
        let r = split_on(s.drop_last(), sep);
        if s.last() == sep {
            r.push(Seq::empty())
        } else {
            r.update(r.len() - 1, r.last().push(s.last()))
        }
    }
}

/// The lines of `s`, split on `'\n'`.
pub open spec fn lines(s: Seq<char>) -> Seq<Seq<char>> {
    split_on(s, '\n')
}

/// The value of a run of decimal digits.
pub open spec fn digits_value(s: Seq<char>) -> nat
    decreases s.len(),
{
    if s.len() == 0 {
        0
    } else {
        digits_value(s.drop_last()) * 10 + ((s.last() as u32) - ('0' as u32)) as nat
    }
}

pub open spec fn all_digits(s: Seq<char>) -> bool {
    forall|i: int| 0 <= i < s.len() ==> '0' <= #[trigger] s[i] <= '9'
}

/// What `u64::from_str` accepts: an optional `+`, then one or more decimal
/// digits whose value fits in 64 bits.
pub open spec fn parse_u64(s: Seq<char>) -> Option<u64> {
    let d = if s.len() > 0 && s[0] == '+' {
        s.drop_first()
    } else {
        s
    };
    if d.len() > 0 && all_digits(d) && digits_value(d) <= u64::MAX {
        Some(digits_value(d) as u64)
    } else {
        None
    }
}

/// The words of `toks` joined by single spaces.
pub open spec fn join_words(toks: Seq<Seq<char>>) -> Seq<char>
    decreases toks.len(),
{
    if toks.len() == 0 {
        Seq::empty()
    } else if toks.len() == 1 {
        toks[0]
    } else {
        join_words(toks.drop_last()) + seq![' '] + toks.last()
    }
}

/// The characters of `s`, in order.
pub fn chars_of(s: &str) -> (r: Vec<char>)
    ensures
        r@ == s@,
{
    let mut it = s.chars();
    let mut v: Vec<char> = Vec::new();
    loop
        invariant
            it.obeys_prophetic_iter_laws(),
            it.decrease() is Some,
            v@ + it.remaining() == s@,
        ensures
            v@ == s@,
        decreases it.decrease()->0,
    {
        match it.next() {
            Some(c) => {
                v.push(c);
                assert(v@ + it.remaining() =~= s@);
            },
            None => {
                assert(v@ =~= s@);
                break;
            },
        }
    }
    v
}

/// Relies on `String::push`: appends one character.
#[verifier::external_body]
pub(crate) fn push_char(s: &mut String, c: char)
    ensures
        final(s)@ == old(s)@.push(c),
{
    s.push(c)
}

pub fn is_ws_char(c: char) -> (r: bool)
    ensures
        r == is_ws(c),
{
    let u = c as u32;
    (0x09 <= u && u <= 0x0d) || u == 0x20 || u == 0x85 || u == 0xa0 || u == 0x1680 || (0x2000
        <= u && u <= 0x200a) || u == 0x2028 || u == 0x2029 || u == 0x202f || u == 0x205f || u
        == 0x3000
}

/// The bounds of the words of `chars[lo..hi]`.
pub fn token_bounds(chars: &Vec<char>, lo: usize, hi: usize) -> (r: Vec<(usize, usize)>)
    requires
        lo <= hi <= chars@.len(),
    ensures
        r@.len() == tokens(chars@.subrange(lo as int, hi as int)).len(),
        forall|t: int|
            0 <= t < r@.len() ==> lo <= (#[trigger] r@[t]).0 < r@[t].1 <= hi && chars@.subrange(
                r@[t].0 as int,
                r@[t].1 as int,
            ) == tokens(chars@.subrange(lo as int, hi as int))[t],
{
    let mut r: Vec<(usize, usize)> = Vec::new();
    let mut k: usize = lo;
    while k < hi
        invariant
            lo <= k <= hi <= chars@.len(),
            r@.len() == tokens(chars@.subrange(lo as int, k as int)).len(),
            forall|t: int|
                0 <= t < r@.len() ==> lo <= (#[trigger] r@[t]).0 < r@[t].1 <= k
                    && chars@.subrange(r@[t].0 as int, r@[t].1 as int) == tokens(
                    chars@.subrange(lo as int, k as int),
                )[t],
            k > lo && !is_ws(chars@[k - 1]) ==> r@.len() > 0 && r@.last().1 == k,
        decreases hi - k,
    {
        let ghost before = chars@.subrange(lo as int, k as int);
        let ghost after = chars@.subrange(lo as int, k + 1);
        proof {
            assert(after.drop_last() =~= before);
            assert(after.last() == chars@[k as int]);
            if k > lo {
                assert(after[after.len() - 2] == chars@[k - 1]);
            }
        }
        let c = chars[k];
        if is_ws_char(c) {
        } else if k > lo && !is_ws_char(chars[k - 1]) {
            let last = r.pop().unwrap();
            r.push((last.0, k + 1));
            proof {
                assert(chars@.subrange(last.0 as int, k + 1) =~= chars@.subrange(
                    last.0 as int,
                    k as int,
                ).push(c));
            }
        } else {
            r.push((k, k + 1));
            proof {
                assert(chars@.subrange(k as int, k + 1) =~= seq![c]);
            }
        }
        k = k + 1;
    }
    r
}

/// Reads `chars[lo..hi]` as `u64::from_str` does.
pub fn parse_u64_at(chars: &Vec<char>, lo: usize, hi: usize) -> (r: Option<u64>)
    requires
        lo <= hi <= chars@.len(),
    ensures
        r == parse_u64(chars@.subrange(lo as int, hi as int)),
{
    let ghost s = chars@.subrange(lo as int, hi as int);
    let mut start = lo;
    if lo < hi && chars[lo] == '+' {
        start = lo + 1;
    }
    let ghost d = chars@.subrange(start as int, hi as int);
    proof {
        if lo < hi && chars@[lo as int] == '+' {
            assert(d =~= s.drop_first());
        } else {
            assert(d =~= s);
        }
    }
    if start == hi {
        return None;
    }
    let mut acc: u64 = 0;
    let mut over = false;
    let mut k = start;
    while k < hi
        invariant
            start <= k <= hi <= chars@.len(),
            d == chars@.subrange(start as int, hi as int),
            s == chars@.subrange(lo as int, hi as int),
            d == (if s.len() > 0 && s[0] == '+' {
                s.drop_first()
            } else {
                s
            }),
            all_digits(chars@.subrange(start as int, k as int)),
            over ==> digits_value(chars@.subrange(start as int, k as int)) > u64::MAX,
            !over ==> acc == digits_value(chars@.subrange(start as int, k as int)),
        decreases hi - k,
    {
        let c = chars[k];
        let ghost pre = chars@.subrange(start as int, k as int);
        let ghost next = chars@.subrange(start as int, k + 1);
        proof {
            assert(next.drop_last() =~= pre);
        }
        if c < '0' || c > '9' {
            proof {
                assert(d[k - start] == c);
            }
            return None;
        }
        let digit = (c as u32 - '0' as u32) as u64;
        if !over {
            if acc > 1844674407370955161 || (acc == 1844674407370955161 && digit > 5) {
                over = true;
            } else {
                acc = acc * 10 + digit;
            }
        }
        proof {
            assert(all_digits(next)) by {
                assert forall|i: int| 0 <= i < next.len() implies '0' <= #[trigger] next[i]
                    <= '9' by {
                    if i < pre.len() {
                        assert(next[i] == pre[i]);
                    }
                }
            }
        }
        k = k + 1;
    }
    proof {
        assert(chars@.subrange(start as int, hi as int) =~= d);
    }
    if over {
        None
    } else {
        Some(acc)
    }
}

/// `chars[lo..hi]` is exactly `word`.
pub fn slice_equals(chars: &Vec<char>, lo: usize, hi: usize, word: &Vec<char>) -> (r: bool)
    requires
        lo <= hi <= chars@.len(),
    ensures
        r == (chars@.subrange(lo as int, hi as int) == word@),
{
    if hi - lo != word.len() {
        return false;
    }
    let mut i: usize = 0;
    while i < word.len()
        invariant
            hi - lo == word@.len(),
            lo <= hi <= chars@.len(),
            0 <= i <= word@.len(),
            forall|j: int| 0 <= j < i ==> chars@[lo + j] == word@[j],
        decreases word@.len() - i,
    {
        if chars[lo + i] != word[i] {
            proof {
                assert(chars@.subrange(lo as int, hi as int)[i as int] != word@[i as int]);
            }
            return false;
        }
        i = i + 1;
    }
    assert(chars@.subrange(lo as int, hi as int) =~= word@);
    true
}

/// `chars[lo..hi]` begins with `word`.
pub fn slice_starts_with(chars: &Vec<char>, lo: usize, hi: usize, word: &Vec<char>) -> (r: bool)
    requires
        lo <= hi <= chars@.len(),
    ensures
        r == word@.is_prefix_of(chars@.subrange(lo as int, hi as int)),
{
    if hi - lo < word.len() {
        return false;
    }
    let mut i: usize = 0;
    while i < word.len()
        invariant
            hi - lo >= word@.len(),
            lo <= hi <= chars@.len(),
            0 <= i <= word@.len(),
            forall|j: int| 0 <= j < i ==> chars@[lo + j] == word@[j],
        decreases word@.len() - i,
    {
        if chars[lo + i] != word[i] {
            proof {
                assert(chars@.subrange(lo as int, hi as int)[i as int] != word@[i as int]);
            }
            return false;
        }
        i = i + 1;
    }
    assert(word@ =~= chars@.subrange(lo as int, hi as int).subrange(0, word@.len() as int));
    true
}

/// The words at `bounds[from..]` joined by single spaces.
pub fn join_from(chars: &Vec<char>, bounds: &Vec<(usize, usize)>, from: usize) -> (r: String)
    requires
        from <= bounds@.len(),
        forall|t: int|
            0 <= t < bounds@.len() ==> (#[trigger] bounds@[t]).0 <= bounds@[t].1 <= chars@.len(),
    ensures
        r@ == join_words(
            Seq::new(
                (bounds@.len() - from) as nat,
                |t: int| chars@.subrange(bounds@[from + t].0 as int, bounds@[from + t].1 as int),
            ),
        ),
{
    let ghost words = Seq::new(
        (bounds@.len() - from) as nat,
        |t: int| chars@.subrange(bounds@[from + t].0 as int, bounds@[from + t].1 as int),
    );
    let mut r = String::new();
    let mut t: usize = from;
    while t < bounds.len()
        invariant
            from <= t <= bounds@.len(),
            forall|u: int|
                0 <= u < bounds@.len() ==> (#[trigger] bounds@[u]).0 <= bounds@[u].1
                    <= chars@.len(),
            words == Seq::new(
                (bounds@.len() - from) as nat,
                |u: int| chars@.subrange(bounds@[from + u].0 as int, bounds@[from + u].1 as int),
            ),
            r@ == join_words(words.take(t - from)),
        decreases bounds@.len() - t,
    {
        let ghost before = r@;
        let (a, b) = bounds[t];
        if t > from {
            push_char(&mut r, ' ');
        }
        let mut k = a;
        while k < b
            invariant
                a <= k <= b <= chars@.len(),
                r@ == (if t > from {
                    before + seq![' ']
                } else {
                    before
                }) + chars@.subrange(a as int, k as int),
            decreases b - k,
        {
            push_char(&mut r, chars[k]);
            proof {
                assert(chars@.subrange(a as int, k + 1) =~= chars@.subrange(a as int, k as int).push(
                    chars@[k as int],
                ));
            }
            k = k + 1;
        }
        proof {
            let w = words.take(t + 1 - from);
            assert(w.drop_last() =~= words.take(t - from));
            assert(w.last() == chars@.subrange(a as int, b as int));
            if t == from {
                assert(before =~= Seq::<char>::empty());
                assert(r@ =~= w[0]);
            } else {
                assert(r@ =~= before + seq![' '] + w.last());
            }
        }
        t = t + 1;
    }
    proof {
        assert(words.take(bounds@.len() - from) =~= words);
    }
    r
}

} // verus!
