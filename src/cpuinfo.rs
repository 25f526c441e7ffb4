use vstd::prelude::*;

use crate::text::{chars_of, is_ws, is_ws_char, lines, parse_u64, parse_u64_at, push_char, slice_equals};

verus! {

/// `s` cut at each blank-line separator `"\n\n"`, matched from the left,
/// as `str::split` gives it.
pub open spec fn split_blank(s: Seq<char>) -> Seq<Seq<char>>
    decreases s.len(),
{
    if s.len() == 0 {
        seq![Seq::empty()]
    } else if s.len() >= 2 && s[0] == '\n' && s[1] == '\n' {
        seq![Seq::<char>::empty()] + split_blank(s.subrange(2, s.len() as int))
    } else {
        let r = split_blank(s.subrange(1, s.len() as int));
        r.update(0, seq![s[0]] + r[0])
    }
}

/// The per-core blocks of a CPU description, as `str::split_terminator`
/// gives them: an empty last piece is dropped.
pub open spec fn cpu_blocks(s: Seq<char>) -> Seq<Seq<char>> {
    let b = split_blank(s);
    if b.last().len() == 0 {
        b.drop_last()
    } else {
        b
    }
}

pub open spec fn trim_start(s: Seq<char>) -> Seq<char>
    decreases s.len(),
{
    if s.len() > 0 && is_ws(s[0]) {
        trim_start(s.subrange(1, s.len() as int))
    } else {
        s
    }
}

pub open spec fn trim_end(s: Seq<char>) -> Seq<char>
    decreases s.len(),
{
    if s.len() > 0 && is_ws(s.last()) {
        trim_end(s.drop_last())
    } else {
        s
    }
}

/// `s` without leading and trailing whitespace, as `str::trim` gives it.
pub open spec fn trim(s: Seq<char>) -> Seq<char> {
    trim_end(trim_start(s))
}

/// The position of the first `c` in `s`, or -1.
pub open spec fn first_index_of(s: Seq<char>, c: char) -> int
    decreases s.len(),
{
    if s.len() == 0 {
        -1
    } else if s[0] == c {
        0
    } else if first_index_of(s.subrange(1, s.len() as int), c) < 0 {
        -1
    } else {
        1 + first_index_of(s.subrange(1, s.len() as int), c)
    }
}

/// The trimmed text after the first `:` of `line`, when the trimmed text
/// before it is `key`.
pub open spec fn keyed_text(line: Seq<char>, key: Seq<char>) -> Option<Seq<char>> {
    let i = first_index_of(line, ':');
    if i >= 0 && trim(line.subrange(0, i)) == key {
        Some(trim(line.subrange(i + 1, line.len() as int)))
    } else {
        None
    }
}

/// The text that the last of `ls` naming `key` gives it.
pub open spec fn last_text(ls: Seq<Seq<char>>, key: Seq<char>) -> Option<Seq<char>>
    decreases ls.len(),
{
    if ls.len() == 0 {
        None
    } else {
        match keyed_text(ls.last(), key) {
            Some(t) => Some(t),
            None => last_text(ls.drop_last(), key),
        }
    }
}

/// The processor number of a block: its last `processor` line, read as a
/// number that fits in `usize`.
pub open spec fn block_processor(block: Seq<char>) -> Option<usize> {
    match last_text(lines(block), "processor"@) {
        Some(t) => match parse_u64(t) {
            Some(v) => if v <= usize::MAX {
                Some(v as usize)
            } else {
                None
            },
            None => None,
        },
        None => None,
    }
}

/// The frequency text of a block: the value of its last `cpu MHz` line.
pub open spec fn block_mhz(block: Seq<char>) -> Option<Seq<char>> {
    last_text(lines(block), "cpu MHz"@)
}

/// A block describes a core when it has both a processor number and a
/// frequency text.
pub open spec fn block_complete(block: Seq<char>) -> bool {
    block_processor(block) is Some && block_mhz(block) is Some
}

/// One core of a CPU description, its frequency still as text.
#[derive(Clone, Debug, PartialEq)]
pub struct CpuEntry {
    pub processor: usize,
    pub mhz: String,
}

/// `chars[a..b]` as a `String`.
fn string_of(chars: &Vec<char>, a: usize, b: usize) -> (r: String)
    requires
        a <= b <= chars@.len(),
    ensures
        r@ == chars@.subrange(a as int, b as int),
{
    let mut r = String::new();
    let mut k = a;
    while k < b
        invariant
            a <= k <= b <= chars@.len(),
            r@ == chars@.subrange(a as int, k as int),
        decreases b - k,
    {
        push_char(&mut r, chars[k]);
        proof {
            assert(chars@.subrange(a as int, k + 1) =~= chars@.subrange(a as int, k as int).push(
                chars@[k as int],
            ));
        }
        k = k + 1;
    }
    r
}

proof fn lemma_split_blank_nonempty(s: Seq<char>)
    ensures
        split_blank(s).len() >= 1,
    decreases s.len(),
{
    if s.len() >= 2 && s[0] == '\n' && s[1] == '\n' {
        lemma_split_blank_nonempty(s.subrange(2, s.len() as int));
    } else if s.len() > 0 {
        lemma_split_blank_nonempty(s.subrange(1, s.len() as int));
    }
}

/// `r` with `cur` put in front of its first piece.
pub open spec fn prepend(cur: Seq<char>, r: Seq<Seq<char>>) -> Seq<Seq<char>> {
    r.update(0, cur + r[0])
}

/// The bounds of the pieces of `chars` between blank-line separators.
fn blank_bounds(chars: &Vec<char>) -> (r: Vec<(usize, usize)>)
    ensures
        r@.len() == split_blank(chars@).len(),
        forall|i: int|
            0 <= i < r@.len() ==> (#[trigger] r@[i]).0 <= r@[i].1 <= chars@.len()
                && chars@.subrange(r@[i].0 as int, r@[i].1 as int) == split_blank(chars@)[i],
{
    let n = chars.len();
    let mut r: Vec<(usize, usize)> = Vec::new();
    let mut start: usize = 0;
    let mut k: usize = 0;
    proof {
        assert(chars@.subrange(0, n as int) =~= chars@);
        lemma_split_blank_nonempty(chars@);
        assert(prepend(Seq::empty(), split_blank(chars@)) =~= split_blank(chars@));
    }
    while k < n
        invariant
            n == chars@.len(),
            start <= k <= n,
            forall|i: int|
                0 <= i < r@.len() ==> (#[trigger] r@[i]).0 <= r@[i].1 <= k,
            split_blank(chars@) == Seq::new(
                r@.len(),
                |i: int| chars@.subrange(r@[i].0 as int, r@[i].1 as int),
            ) + prepend(
                chars@.subrange(start as int, k as int),
                split_blank(chars@.subrange(k as int, n as int)),
            ),
        decreases n - k,
    {
        let ghost rest = chars@.subrange(k as int, n as int);
        let ghost cur = chars@.subrange(start as int, k as int);
        let ghost pieces = Seq::new(
            r@.len(),
            |i: int| chars@.subrange(r@[i].0 as int, r@[i].1 as int),
        );
        if k + 1 < n && chars[k] == '\n' && chars[k + 1] == '\n' {
            proof {
                let tail = chars@.subrange(k + 2, n as int);
                assert(rest.subrange(2, rest.len() as int) =~= tail);
                lemma_split_blank_nonempty(tail);
                assert(split_blank(rest) == seq![Seq::<char>::empty()] + split_blank(tail));
                assert(prepend(cur, split_blank(rest)) =~= seq![cur] + split_blank(tail));
                assert(prepend(Seq::empty(), split_blank(tail)) =~= split_blank(tail));
            }
            r.push((start, k));
            proof {
                assert(Seq::new(
                    r@.len(),
                    |i: int| chars@.subrange(r@[i].0 as int, r@[i].1 as int),
                ) =~= pieces.push(cur));
                assert(chars@.subrange(k + 2, k + 2) =~= Seq::<char>::empty());
            }
            start = k + 2;
            k = k + 2;
        } else {
            proof {
                let tail = chars@.subrange(k + 1, n as int);
                assert(rest.subrange(1, rest.len() as int) =~= tail);
                lemma_split_blank_nonempty(tail);
                let t = split_blank(tail);
                assert(split_blank(rest) == t.update(0, seq![chars@[k as int]] + t[0]));
                assert(chars@.subrange(start as int, k + 1) =~= cur.push(chars@[k as int]));
                assert(cur + (seq![chars@[k as int]] + t[0]) =~= cur.push(chars@[k as int]) + t[0]);
                assert(prepend(cur, split_blank(rest)) =~= prepend(
                    chars@.subrange(start as int, k + 1),
                    t,
                ));
            }
            k = k + 1;
        }
    }
    proof {
        let cur = chars@.subrange(start as int, n as int);
        assert(chars@.subrange(n as int, n as int) =~= Seq::<char>::empty());
        assert(prepend(cur, split_blank(Seq::<char>::empty())) =~= seq![cur]);
    }
    let ghost pieces = Seq::new(r@.len(), |i: int| chars@.subrange(r@[i].0 as int, r@[i].1 as int));
    r.push((start, n));
    proof {
        assert(Seq::new(r@.len(), |i: int| chars@.subrange(r@[i].0 as int, r@[i].1 as int))
            =~= pieces.push(chars@.subrange(start as int, n as int)));
    }
    r
}

/// Bounds of `chars[lo..hi]` without its leading and trailing whitespace.
fn trim_bounds(chars: &Vec<char>, lo: usize, hi: usize) -> (r: (usize, usize))
    requires
        lo <= hi <= chars@.len(),
    ensures
        lo <= r.0 <= r.1 <= hi,
        chars@.subrange(r.0 as int, r.1 as int) == trim(chars@.subrange(lo as int, hi as int)),
{
    let mut a = lo;
    while a < hi && is_ws_char(chars[a])
        invariant
            lo <= a <= hi <= chars@.len(),
            trim_start(chars@.subrange(lo as int, hi as int)) == trim_start(
                chars@.subrange(a as int, hi as int),
            ),
        decreases hi - a,
    {
        proof {
            let s = chars@.subrange(a as int, hi as int);
            assert(s.subrange(1, s.len() as int) =~= chars@.subrange(a + 1, hi as int));
        }
        a = a + 1;
    }
    let mut b = hi;
    proof {
        assert(trim_start(chars@.subrange(a as int, hi as int)) == chars@.subrange(
            a as int,
            hi as int,
        ));
    }
    while b > a && is_ws_char(chars[b - 1])
        invariant
            lo <= a <= b <= hi <= chars@.len(),
            trim(chars@.subrange(lo as int, hi as int)) == trim_end(
                chars@.subrange(a as int, b as int),
            ),
        decreases b - a,
    {
        proof {
            let s = chars@.subrange(a as int, b as int);
            assert(s.drop_last() =~= chars@.subrange(a as int, b - 1));
        }
        b = b - 1;
    }
    (a, b)
}

/// Position of the first `c` in `chars[lo..hi]`, counted from `lo`.
fn find_first(chars: &Vec<char>, lo: usize, hi: usize, c: char) -> (r: Option<usize>)
    requires
        lo <= hi <= chars@.len(),
    ensures
        match r {
            Some(i) => lo + i < hi && first_index_of(chars@.subrange(lo as int, hi as int), c)
                == i,
            None => first_index_of(chars@.subrange(lo as int, hi as int), c) < 0,
        },
{
    let mut k = lo;
    while k < hi && chars[k] != c
        invariant
            lo <= k <= hi <= chars@.len(),
            forall|j: int| lo <= j < k ==> chars@[j] != c,
        decreases hi - k,
    {
        k = k + 1;
    }
    proof {
        lemma_first_index(chars@.subrange(lo as int, hi as int), c, (k - lo) as int);
    }
    if k < hi {
        Some(k - lo)
    } else {
        None
    }
}

proof fn lemma_first_index(s: Seq<char>, c: char, k: int)
    requires
        0 <= k <= s.len(),
        forall|j: int| 0 <= j < k ==> s[j] != c,
        k < s.len() ==> s[k] == c,
    ensures
        k < s.len() ==> first_index_of(s, c) == k,
        k == s.len() ==> first_index_of(s, c) < 0,
    decreases k,
{
    if k > 0 {
        let t = s.subrange(1, s.len() as int);
        lemma_first_index(t, c, k - 1);
    } else if s.len() == 0 {
    }
}

/// The text that the line `chars[lo..hi]` gives to `key`, as bounds.
fn keyed_text_at(chars: &Vec<char>, lo: usize, hi: usize, key: &Vec<char>) -> (r: Option<
    (usize, usize),
>)
    requires
        lo <= hi <= chars@.len(),
    ensures
        match r {
            Some(t) => t.0 <= t.1 <= chars@.len() && keyed_text(
                chars@.subrange(lo as int, hi as int),
                key@,
            ) == Some(chars@.subrange(t.0 as int, t.1 as int)),
            None => keyed_text(chars@.subrange(lo as int, hi as int), key@) is None,
        },
{
    let ghost line = chars@.subrange(lo as int, hi as int);
    match find_first(chars, lo, hi, ':') {
        None => None,
        Some(i) => {
            let (ka, kb) = trim_bounds(chars, lo, lo + i);
            proof {
                assert(line.subrange(0, i as int) =~= chars@.subrange(lo as int, lo + i));
                assert(line.subrange(i + 1, line.len() as int) =~= chars@.subrange(
                    lo + i + 1,
                    hi as int,
                ));
            }
            if slice_equals(chars, ka, kb, key) {
                let (va, vb) = trim_bounds(chars, lo + i + 1, hi);
                Some((va, vb))
            } else {
                None
            }
        },
    }
}

/// The processor number and frequency text of the block `chars[lo..hi]`.
fn read_block(
    chars: &Vec<char>,
    lo: usize,
    hi: usize,
    processor_key: &Vec<char>,
    mhz_key: &Vec<char>,
) -> (r: Option<CpuEntry>)
    requires
        lo <= hi <= chars@.len(),
        processor_key@ == "processor"@,
        mhz_key@ == "cpu MHz"@,
    ensures
        match r {
            Some(e) => block_processor(chars@.subrange(lo as int, hi as int)) == Some(e.processor)
                && block_mhz(chars@.subrange(lo as int, hi as int)) == Some(e.mhz@),
            None => !block_complete(chars@.subrange(lo as int, hi as int)),
        },
{
    let ghost block = chars@.subrange(lo as int, hi as int);
    let ghost mut done: Seq<Seq<char>> = Seq::empty();
    let mut processor: Option<(usize, usize)> = None;
    let mut mhz: Option<(usize, usize)> = None;
    let mut start = lo;
    let mut k = lo;
    proof {
        assert(chars@.subrange(lo as int, lo as int) =~= Seq::<char>::empty());
        assert(block.subrange(0, 0) =~= Seq::<char>::empty());
        assert(lines(Seq::<char>::empty()) == seq![Seq::<char>::empty()]);
        assert(done.push(chars@.subrange(lo as int, lo as int)) =~= seq![Seq::<char>::empty()]);
    }
    while k < hi
        invariant
            lo <= start <= k <= hi <= chars@.len(),
            block == chars@.subrange(lo as int, hi as int),
            processor_key@ == "processor"@,
            mhz_key@ == "cpu MHz"@,
            lines(block.subrange(0, k - lo)) == done.push(chars@.subrange(start as int, k as int)),
            match processor {
                Some(t) => t.0 <= t.1 <= chars@.len() && last_text(done, "processor"@) == Some(
                    chars@.subrange(t.0 as int, t.1 as int),
                ),
                None => last_text(done, "processor"@) is None,
            },
            match mhz {
                Some(t) => t.0 <= t.1 <= chars@.len() && last_text(done, "cpu MHz"@) == Some(
                    chars@.subrange(t.0 as int, t.1 as int),
                ),
                None => last_text(done, "cpu MHz"@) is None,
            },
        decreases hi - k,
    {
        let ghost pre = block.subrange(0, k - lo);
        let ghost post = block.subrange(0, k + 1 - lo);
        proof {
            assert(post.drop_last() =~= pre);
            assert(post.last() == chars@[k as int]);
        }
        if chars[k] == '\n' {
            let ghost line = chars@.subrange(start as int, k as int);
            let p = keyed_text_at(chars, start, k, processor_key);
            if p.is_some() {
                processor = p;
            }
            let m = keyed_text_at(chars, start, k, mhz_key);
            if m.is_some() {
                mhz = m;
            }
            proof {
                let nd = done.push(line);
                assert(nd.drop_last() =~= done);
                done = nd;
                assert(chars@.subrange(k + 1, k + 1) =~= Seq::<char>::empty());
            }
            start = k + 1;
        } else {
            proof {
                assert(chars@.subrange(start as int, k + 1) =~= chars@.subrange(
                    start as int,
                    k as int,
                ).push(chars@[k as int]));
                assert(done.push(chars@.subrange(start as int, k + 1)) =~= done.push(
                    chars@.subrange(start as int, k as int),
                ).update(done.len() as int, chars@.subrange(start as int, k + 1)));
            }
        }
        k = k + 1;
    }
    let ghost line = chars@.subrange(start as int, hi as int);
    let p = keyed_text_at(chars, start, hi, processor_key);
    if p.is_some() {
        processor = p;
    }
    let m = keyed_text_at(chars, start, hi, mhz_key);
    if m.is_some() {
        mhz = m;
    }
    proof {
        assert(block.subrange(0, hi - lo) =~= block);
        let all = done.push(line);
        assert(all.drop_last() =~= done);
        assert(lines(block) == all);
    }
    let number = match processor {
        Some((a, b)) => parse_u64_at(chars, a, b),
        None => None,
    };
    let number = match number {
        Some(v) => if v <= usize::MAX as u64 {
            v as usize
        } else {
            return None;
        },
        None => {
            return None;
        },
    };
    match mhz {
        Some((a, b)) => Some(CpuEntry { processor: number, mhz: string_of(chars, a, b) }),
        None => None,
    }
}

/// Reads a CPU description, one block per core, blocks parted by a blank
/// line.
///
/// Each block gives its last `processor` number and the text of its last
/// `cpu MHz` value; a key is what precedes the first `:` of a line, and
/// keys and values are trimmed. When any block lacks either, there is no
/// result at all.
pub fn parse_cpu_blocks(file_content: &str) -> (r: Option<Vec<CpuEntry>>)
    ensures
        match r {
            Some(v) => v@.len() == cpu_blocks(file_content@).len() && forall|i: int|
                0 <= i < v@.len() ==> block_processor(#[trigger] cpu_blocks(file_content@)[i])
                    == Some(v@[i].processor) && block_mhz(cpu_blocks(file_content@)[i]) == Some(
                    v@[i].mhz@,
                ),
            None => exists|i: int|
                0 <= i < cpu_blocks(file_content@).len() && !block_complete(
                    #[trigger] cpu_blocks(file_content@)[i],
                ),
        },
{
    let chars = chars_of(file_content);
    let mut bounds = blank_bounds(&chars);
    let ghost pieces = split_blank(chars@);
    proof {
        lemma_split_blank_nonempty(chars@);
    }
    let last = bounds[bounds.len() - 1];
    if last.0 == last.1 {
        bounds.pop();
    }
    let ghost blocks = cpu_blocks(chars@);
    proof {
        assert(bounds@.len() == blocks.len());
    }
    let processor_key = chars_of("processor");
    let mhz_key = chars_of("cpu MHz");
    let mut out: Vec<CpuEntry> = Vec::new();
    let mut i: usize = 0;
    while i < bounds.len()
        invariant
            0 <= i <= bounds@.len() == blocks.len(),
            blocks == cpu_blocks(chars@),
            chars@ == file_content@,
            processor_key@ == "processor"@,
            mhz_key@ == "cpu MHz"@,
            forall|j: int|
                0 <= j < bounds@.len() ==> (#[trigger] bounds@[j]).0 <= bounds@[j].1
                    <= chars@.len() && chars@.subrange(bounds@[j].0 as int, bounds@[j].1 as int)
                    == blocks[j],
            out@.len() == i,
            forall|j: int|
                0 <= j < i ==> block_processor(#[trigger] blocks[j]) == Some(out@[j].processor)
                    && block_mhz(blocks[j]) == Some(out@[j].mhz@),
        decreases bounds@.len() - i,
    {
        let (a, b) = bounds[i];
        assert(bounds@[i as int] == (a, b));
        match read_block(&chars, a, b, &processor_key, &mhz_key) {
            Some(e) => {
                out.push(e);
            },
            None => {
                return None;
            },
        }
        i = i + 1;
    }
    Some(out)
}

} // verus!
