use vstd::prelude::*;

use crate::proc::{IoStats, MemInfo, Proc, Stat, Status, VmStat};
use crate::text::{
    chars_of, join_from, join_words, lines, parse_u64, parse_u64_at, slice_equals,
    slice_starts_with, token_bounds, tokens,
};

verus! {

/// The number in the second word of `line`, when `line` begins with `name`.
pub open spec fn value_of(name: Seq<char>, line: Seq<char>) -> Option<u64> {
    if name.is_prefix_of(line) && tokens(line).len() >= 2 {
        parse_u64(tokens(line)[1])
    } else {
        None
    }
}

/// The words of `line` after the first, joined by single spaces, when
/// `line` begins with `name` and has at least two words.
pub open spec fn value_str_of(name: Seq<char>, line: Seq<char>) -> Option<Seq<char>> {
    if name.is_prefix_of(line) && tokens(line).len() >= 2 {
        Some(join_words(tokens(line).subrange(1, tokens(line).len() as int)))
    } else {
        None
    }
}

/// The number in the second word of `line`, when its first word is `key`.
pub open spec fn keyed_value(key: Seq<char>, line: Seq<char>) -> Option<u64> {
    if tokens(line).len() >= 2 && tokens(line)[0] == key {
        parse_u64(tokens(line)[1])
    } else {
        None
    }
}

/// A count of kibibytes in bytes, when that fits in 64 bits.
pub open spec fn in_bytes(v: Option<u64>) -> Option<u64> {
    match v {
        Some(x) => if x * 1024 <= u64::MAX {
            Some((x * 1024) as u64)
        } else {
            None
        },
        None => None,
    }
}

/// The value that `line` gives to the field labelled `label`: the line
/// names the label as its first word (`keyed`) or begins with it, and the
/// value is read as kibibytes when `kib` holds.
pub open spec fn line_value(label: Seq<char>, line: Seq<char>, keyed: bool, kib: bool) -> Option<
    u64,
> {
    let v = if keyed {
        keyed_value(label, line)
    } else {
        value_of(label, line)
    };
    if kib {
        in_bytes(v)
    } else {
        v
    }
}

/// The value given to `label` by the last of `ls` that gives it one, or
/// zero when none does.
pub open spec fn last_value(ls: Seq<Seq<char>>, label: Seq<char>, keyed: bool, kib: bool) -> u64
    decreases ls.len(),
{
    if ls.len() == 0 {
        0
    } else {
        match line_value(label, ls.last(), keyed, kib) {
            Some(v) => v,
            None => last_value(ls.drop_last(), label, keyed, kib),
        }
    }
}

/// A memory figure of a status text: the lines after the first are read.
pub open spec fn status_field(s: Seq<char>, label: Seq<char>) -> u64 {
    last_value(lines(s).drop_first(), label, false, true)
}

/// The process name of a status text, from its first line.
pub open spec fn status_name(s: Seq<char>) -> Option<Seq<char>> {
    value_str_of("Name:"@, lines(s)[0])
}

/// `st` holds the memory figures of the status text `s`.
pub open spec fn status_fields_of(st: Status, s: Seq<char>) -> bool {
    &&& st.vm_peack == status_field(s, "VmPeak:"@)
    &&& st.vm_size == status_field(s, "VmSize:"@)
    &&& st.vm_lck == status_field(s, "VmLck:"@)
    &&& st.vm_pin == status_field(s, "VmPin:"@)
    &&& st.vm_hwm == status_field(s, "VmHWM:"@)
    &&& st.vm_rss == status_field(s, "VmRSS:"@)
    &&& st.rss_anon == status_field(s, "RssAnon:"@)
    &&& st.rss_file == status_field(s, "RssFile:"@)
    &&& st.rss_shmem == status_field(s, "RssShmem:"@)
    &&& st.vm_data == status_field(s, "VmData:"@)
    &&& st.vm_stk == status_field(s, "VmStk:"@)
    &&& st.vm_exe == status_field(s, "VmExe:"@)
    &&& st.vm_lib == status_field(s, "VmLib:"@)
    &&& st.vm_pte == status_field(s, "VmPTE:"@)
    &&& st.vm_swap == status_field(s, "VmSwap:"@)
}

/// The counters of an I/O text.
pub open spec fn io_of(s: Seq<char>) -> IoStats {
    IoStats {
        rchar: last_value(lines(s), "rchar:"@, false, false),
        wchar: last_value(lines(s), "wchar:"@, false, false),
        syscr: last_value(lines(s), "syscr:"@, false, false),
        syscw: last_value(lines(s), "syscw:"@, false, false),
        read_bytes: last_value(lines(s), "read_bytes:"@, false, false),
        write_bytes: last_value(lines(s), "write_bytes:"@, false, false),
        cancelled_write_bytes: last_value(lines(s), "cancelled_write_bytes:"@, false, false),
    }
}

/// The swap counters of a virtual-memory statistics text.
pub open spec fn vm_stat_of(s: Seq<char>) -> VmStat {
    VmStat {
        pswpin: last_value(lines(s), "pswpin"@, false, false),
        pswpout: last_value(lines(s), "pswpout"@, false, false),
    }
}

/// The figures of a system memory text, in bytes.
pub open spec fn mem_info_of(s: Seq<char>) -> MemInfo {
    MemInfo {
        mem_total: last_value(lines(s), "MemTotal:"@, true, true),
        mem_free: last_value(lines(s), "MemFree:"@, true, true),
        mem_available: last_value(lines(s), "MemAvailable:"@, true, true),
        swap_total: last_value(lines(s), "SwapTotal:"@, true, true),
        swap_free: last_value(lines(s), "SwapFree:"@, true, true),
    }
}

/// The position of the last `c` in `s`, or -1.
pub open spec fn last_index_of(s: Seq<char>, c: char) -> int
    decreases s.len(),
{
    if s.len() == 0 {
        -1
    } else if s.last() == c {
        s.len() - 1
    } else {
        last_index_of(s.drop_last(), c)
    }
}

/// The scheduler ticks of a process stat text: the words after the last
/// `)` are read, user ticks at the twelfth and kernel ticks at the
/// thirteenth.
pub open spec fn stat_of(s: Seq<char>) -> Option<Stat> {
    let p = last_index_of(s, ')');
    if p < 0 {
        None
    } else {
        let t = tokens(s.subrange(p + 1, s.len() as int));
        if t.len() >= 13 && parse_u64(t[11]) is Some && parse_u64(t[12]) is Some {
            Some(Stat { utime: parse_u64(t[11])->0, stime: parse_u64(t[12])->0 })
        } else {
            None
        }
    }
}

/// The value that `chars[lo..hi]` gives to `label`; `bounds` are its words.
fn line_value_at(
    chars: &Vec<char>,
    lo: usize,
    hi: usize,
    bounds: &Vec<(usize, usize)>,
    label: &Vec<char>,
    keyed: bool,
    kib: bool,
) -> (r: Option<u64>)
    requires
        lo <= hi <= chars@.len(),
        bounds@.len() == tokens(chars@.subrange(lo as int, hi as int)).len(),
        forall|t: int|
            0 <= t < bounds@.len() ==> lo <= (#[trigger] bounds@[t]).0 < bounds@[t].1 <= hi
                && chars@.subrange(bounds@[t].0 as int, bounds@[t].1 as int) == tokens(
                chars@.subrange(lo as int, hi as int),
            )[t],
    ensures
        r == line_value(label@, chars@.subrange(lo as int, hi as int), keyed, kib),
{
    let ghost line = chars@.subrange(lo as int, hi as int);
    if bounds.len() < 2 {
        return None;
    }
    let b0 = bounds[0];
    let b1 = bounds[1];
    assert(bounds@[0] == b0 && bounds@[1] == b1);
    let matched = if keyed {
        slice_equals(chars, b0.0, b0.1, label)
    } else {
        slice_starts_with(chars, lo, hi, label)
    };
    if !matched {
        return None;
    }
    let v = parse_u64_at(chars, b1.0, b1.1);
    if kib {
        match v {
            Some(x) => x.checked_mul(1024),
            None => None,
        }
    } else {
        v
    }
}

/// Updates `vals` with what the line `chars[lo..hi]` gives to each label.
fn apply_line(
    chars: &Vec<char>,
    lo: usize,
    hi: usize,
    labels: &Vec<Vec<char>>,
    keyed: bool,
    kib: bool,
    vals: &mut Vec<u64>,
)
    requires
        lo <= hi <= chars@.len(),
        old(vals)@.len() == labels@.len(),
    ensures
        final(vals)@.len() == labels@.len(),
        forall|i: int|
            0 <= i < labels@.len() ==> #[trigger] final(vals)@[i] == match line_value(
                labels@[i]@,
                chars@.subrange(lo as int, hi as int),
                keyed,
                kib,
            ) {
                Some(v) => v,
                None => old(vals)@[i],
            },
{
    let bounds = token_bounds(chars, lo, hi);
    let mut i: usize = 0;
    while i < labels.len()
        invariant
            lo <= hi <= chars@.len(),
            0 <= i <= labels@.len() == vals@.len(),
            bounds@.len() == tokens(chars@.subrange(lo as int, hi as int)).len(),
            forall|t: int|
                0 <= t < bounds@.len() ==> lo <= (#[trigger] bounds@[t]).0 < bounds@[t].1 <= hi
                    && chars@.subrange(bounds@[t].0 as int, bounds@[t].1 as int) == tokens(
                    chars@.subrange(lo as int, hi as int),
                )[t],
            forall|j: int|
                0 <= j < i ==> #[trigger] vals@[j] == match line_value(
                    labels@[j]@,
                    chars@.subrange(lo as int, hi as int),
                    keyed,
                    kib,
                ) {
                    Some(v) => v,
                    None => old(vals)@[j],
                },
            forall|j: int| i <= j < vals@.len() ==> #[trigger] vals@[j] == old(vals)@[j],
        decreases labels@.len() - i,
    {
        match line_value_at(chars, lo, hi, &bounds, &labels[i], keyed, kib) {
            Some(v) => {
                vals.set(i, v);
            },
            None => {},
        }
        i = i + 1;
    }
}

/// Reads every line of `chars` but the first `skip`, and gives each label
/// the value of the last line that names it, or zero. Also returns where
/// the first line ends.
fn scan_values(chars: &Vec<char>, labels: &Vec<Vec<char>>, keyed: bool, kib: bool, skip: usize) -> (r:
    (Vec<u64>, usize))
    requires
        skip <= 1,
    ensures
        r.0@.len() == labels@.len(),
        forall|i: int|
            0 <= i < labels@.len() ==> #[trigger] r.0@[i] == last_value(
                lines(chars@).subrange(skip as int, lines(chars@).len() as int),
                labels@[i]@,
                keyed,
                kib,
            ),
        r.1 <= chars@.len(),
        lines(chars@)[0] == chars@.subrange(0, r.1 as int),
{
    let n = chars.len();
    let mut vals: Vec<u64> = Vec::new();
    let mut i: usize = 0;
    while i < labels.len()
        invariant
            0 <= i <= labels@.len(),
            vals@.len() == i,
            forall|j: int| 0 <= j < i ==> #[trigger] vals@[j] == 0,
        decreases labels@.len() - i,
    {
        vals.push(0);
        i = i + 1;
    }
    let ghost mut done: Seq<Seq<char>> = Seq::empty();
    let ghost mut seen: Seq<Seq<char>> = Seq::empty();
    let mut start: usize = 0;
    let mut first_end: usize = n;
    let mut n_done: usize = 0;
    let mut k: usize = 0;
    proof {
        assert(chars@.subrange(0, 0) =~= Seq::<char>::empty());
        assert(lines(Seq::<char>::empty()) == seq![Seq::<char>::empty()]);
        assert(done.push(chars@.subrange(0, 0)) =~= seq![Seq::<char>::empty()]);
    }
    while k < n
        invariant
            n == chars@.len(),
            skip <= 1,
            0 <= start <= k <= n,
            first_end <= n,
            n_done == done.len(),
            n_done <= k,
            vals@.len() == labels@.len(),
            lines(chars@.subrange(0, k as int)) == done.push(chars@.subrange(start as int, k as int)),
            done.len() >= skip ==> seen == done.subrange(skip as int, done.len() as int),
            done.len() < skip ==> seen == Seq::<Seq<char>>::empty(),
            done.len() > 0 ==> done[0] == chars@.subrange(0, first_end as int),
            done.len() == 0 ==> start == 0 && first_end == n,
            forall|j: int|
                0 <= j < labels@.len() ==> #[trigger] vals@[j] == last_value(
                    seen,
                    labels@[j]@,
                    keyed,
                    kib,
                ),
        decreases n - k,
    {
        let ghost pre = chars@.subrange(0, k as int);
        let ghost post = chars@.subrange(0, k + 1);
        proof {
            assert(post.drop_last() =~= pre);
            assert(post.last() == chars@[k as int]);
        }
        if chars[k] == '\n' {
            let ghost line = chars@.subrange(start as int, k as int);
            if n_done >= skip {
                apply_line(chars, start, k, labels, keyed, kib, &mut vals);
                proof {
                    let old_seen = seen;
                    seen = seen.push(line);
                    assert(seen.drop_last() =~= old_seen);
                    assert(done.push(line).subrange(skip as int, done.len() + 1 as int) =~= seen);
                }
            } else {
                proof {
                    assert(done.push(line).subrange(skip as int, done.len() + 1 as int) =~= seen);
                }
            }
            if n_done == 0 {
                first_end = k;
            }
            n_done = n_done + 1;
            proof {
                done = done.push(line);
                assert(chars@.subrange(k + 1, k + 1) =~= Seq::<char>::empty());
            }
            start = k + 1;
        } else {
            proof {
                assert(chars@.subrange(start as int, k + 1) =~= chars@.subrange(
                    start as int,
                    k as int,
                ).push(chars@[k as int]));
                assert(done.push(chars@.subrange(start as int, k + 1)) =~= done.push(
                    chars@.subrange(start as int, k as int),
                ).update(done.len() as int, chars@.subrange(start as int, k + 1)));
            }
        }
        k = k + 1;
    }
    let ghost line = chars@.subrange(start as int, n as int);
    proof {
        assert(chars@.subrange(0, n as int) =~= chars@);
    }
    if n_done >= skip {
        apply_line(chars, start, n, labels, keyed, kib, &mut vals);
        proof {
            let old_seen = seen;
            seen = seen.push(line);
            assert(seen.drop_last() =~= old_seen);
        }
    }
    proof {
        let all = done.push(line);
        assert(lines(chars@) == all);
        assert(all.subrange(skip as int, all.len() as int) =~= seen);
        if done.len() == 0 {
            assert(line =~= chars@.subrange(0, n as int));
            assert(all[0] == line);
        } else {
            assert(all[0] == done[0]);
        }
    }
    (vals, first_end)
}

/// `chars` of a literal word.
fn word(s: &str) -> (r: Vec<char>)
    ensures
        r@ == s@,
{
    chars_of(s)
}

/// The number in the second word of `line`, when `line` begins with `name`.
pub fn get_value(name: &str, line: &str) -> (r: Option<u64>)
    ensures
        r == value_of(name@, line@),
{
    let chars = chars_of(line);
    let label = chars_of(name);
    let bounds = token_bounds(&chars, 0, chars.len());
    proof {
        assert(chars@.subrange(0, chars@.len() as int) =~= chars@);
    }
    line_value_at(&chars, 0, chars.len(), &bounds, &label, false, false)
}

/// The words of `line` after the first, joined by single spaces, when
/// `line` begins with `name` and has at least two words.
pub fn get_value_str(name: &str, line: &str) -> (r: Option<String>)
    ensures
        match r {
            Some(v) => value_str_of(name@, line@) == Some(v@),
            None => value_str_of(name@, line@) is None,
        },
{
    let chars = chars_of(line);
    let label = chars_of(name);
    proof {
        assert(chars@.subrange(0, chars@.len() as int) =~= chars@);
    }
    value_str_at(&chars, 0, chars.len(), &label)
}

fn value_str_at(chars: &Vec<char>, lo: usize, hi: usize, label: &Vec<char>) -> (r: Option<String>)
    requires
        lo <= hi <= chars@.len(),
    ensures
        match r {
            Some(v) => value_str_of(label@, chars@.subrange(lo as int, hi as int)) == Some(v@),
            None => value_str_of(label@, chars@.subrange(lo as int, hi as int)) is None,
        },
{
    let ghost line = chars@.subrange(lo as int, hi as int);
    let bounds = token_bounds(chars, lo, hi);
    if !slice_starts_with(chars, lo, hi, label) || bounds.len() < 2 {
        return None;
    }
    let s = join_from(chars, &bounds, 1);
    proof {
        let t = tokens(line);
        assert(Seq::new(
            (bounds@.len() - 1) as nat,
            |u: int| chars@.subrange(bounds@[1 + u].0 as int, bounds@[1 + u].1 as int),
        ) =~= t.subrange(1, t.len() as int));
    }
    Some(s)
}

/// Reads a process status text.
///
/// The first line must name the process (`Name:` and at least one more
/// word); otherwise there is no record. The memory figures come from the
/// later lines, in kibibytes, and are returned in bytes; a figure that no
/// line gives is zero.
pub fn parse_status(file_content: &str) -> (r: Option<Status>)
    ensures
        match r {
            None => status_name(file_content@) is None,
            Some(st) => status_name(file_content@) == Some(st.name@) && status_fields_of(
                st,
                file_content@,
            ),
        },
{
    let chars = chars_of(file_content);
    let mut labels: Vec<Vec<char>> = Vec::new();
    labels.push(word("VmPeak:"));
    labels.push(word("VmSize:"));
    labels.push(word("VmLck:"));
    labels.push(word("VmPin:"));
    labels.push(word("VmHWM:"));
    labels.push(word("VmRSS:"));
    labels.push(word("RssAnon:"));
    labels.push(word("RssFile:"));
    labels.push(word("RssShmem:"));
    labels.push(word("VmData:"));
    labels.push(word("VmStk:"));
    labels.push(word("VmExe:"));
    labels.push(word("VmLib:"));
    labels.push(word("VmPTE:"));
    labels.push(word("VmSwap:"));
    let (vals, first_end) = scan_values(&chars, &labels, false, true, 1);
    let name_label = word("Name:");
    let name = match value_str_at(&chars, 0, first_end, &name_label) {
        Some(name) => name,
        None => {
            return None;
        },
    };
    proof {
        assert(lines(chars@).drop_first() =~= lines(chars@).subrange(1, lines(chars@).len() as int));
    }
    Some(
        Status {
            name,
            vm_peack: vals[0],
            vm_size: vals[1],
            vm_lck: vals[2],
            vm_pin: vals[3],
            vm_hwm: vals[4],
            vm_rss: vals[5],
            rss_anon: vals[6],
            rss_file: vals[7],
            rss_shmem: vals[8],
            vm_data: vals[9],
            vm_stk: vals[10],
            vm_exe: vals[11],
            vm_lib: vals[12],
            vm_pte: vals[13],
            vm_swap: vals[14],
        },
    )
}

/// Reads a process I/O text: each counter comes from the last line that
/// begins with its label, unscaled; a counter that no line gives is zero.
pub fn parse_io(file_content: &str) -> (r: Option<IoStats>)
    ensures
        r == Some(io_of(file_content@)),
{
    let chars = chars_of(file_content);
    let mut labels: Vec<Vec<char>> = Vec::new();
    labels.push(word("rchar:"));
    labels.push(word("wchar:"));
    labels.push(word("syscr:"));
    labels.push(word("syscw:"));
    labels.push(word("read_bytes:"));
    labels.push(word("write_bytes:"));
    labels.push(word("cancelled_write_bytes:"));
    let (vals, _) = scan_values(&chars, &labels, false, false, 0);
    proof {
        assert(lines(chars@).subrange(0, lines(chars@).len() as int) =~= lines(chars@));
    }
    Some(
        IoStats {
            rchar: vals[0],
            wchar: vals[1],
            syscr: vals[2],
            syscw: vals[3],
            read_bytes: vals[4],
            write_bytes: vals[5],
            cancelled_write_bytes: vals[6],
        },
    )
}

/// Reads the swap counters of a virtual-memory statistics text, unscaled;
/// a counter that no line gives is zero.
pub fn parse_vm_stat(file_content: &str) -> (r: VmStat)
    ensures
        r == vm_stat_of(file_content@),
{
    let chars = chars_of(file_content);
    let mut labels: Vec<Vec<char>> = Vec::new();
    labels.push(word("pswpin"));
    labels.push(word("pswpout"));
    let (vals, _) = scan_values(&chars, &labels, false, false, 0);
    proof {
        assert(lines(chars@).subrange(0, lines(chars@).len() as int) =~= lines(chars@));
    }
    VmStat { pswpin: vals[0], pswpout: vals[1] }
}

/// Reads a system memory text: each figure comes from the last line whose
/// first word is its key and whose second word is a number of kibibytes,
/// and is returned in bytes; a figure that no line gives is zero.
pub fn parse_mem_info(mem_info_str: &str) -> (r: MemInfo)
    ensures
        r == mem_info_of(mem_info_str@),
{
    let chars = chars_of(mem_info_str);
    let mut labels: Vec<Vec<char>> = Vec::new();
    labels.push(word("MemTotal:"));
    labels.push(word("MemFree:"));
    labels.push(word("MemAvailable:"));
    labels.push(word("SwapTotal:"));
    labels.push(word("SwapFree:"));
    let (vals, _) = scan_values(&chars, &labels, true, true, 0);
    proof {
        assert(lines(chars@).subrange(0, lines(chars@).len() as int) =~= lines(chars@));
    }
    MemInfo {
        mem_total: vals[0],
        mem_free: vals[1],
        mem_available: vals[2],
        swap_total: vals[3],
        swap_free: vals[4],
    }
}

/// Reads the scheduler ticks of a process stat text.
///
/// The command name stands in parentheses and may hold any character, so
/// the fields are counted from the last `)`: user ticks are the twelfth
/// word after it and kernel ticks the thirteenth.
pub fn parse_stat(file_content: &str) -> (r: Option<Stat>)
    ensures
        r == stat_of(file_content@),
{
    let chars = chars_of(file_content);
    let n = chars.len();
    let mut k: usize = n;
    proof {
        assert(chars@.subrange(0, n as int) =~= chars@);
    }
    while k > 0 && chars[k - 1] != ')'
        invariant
            0 <= k <= n == chars@.len(),
            last_index_of(chars@, ')') == last_index_of(chars@.subrange(0, k as int), ')'),
        decreases k,
    {
        proof {
            let t = chars@.subrange(0, k as int);
            assert(t.drop_last() =~= chars@.subrange(0, k - 1));
        }
        k = k - 1;
    }
    proof {
        assert(chars@.subrange(0, n as int) =~= chars@);
        let t = chars@.subrange(0, k as int);
        if k > 0 {
            assert(t.last() == chars@[k - 1]);
        }
    }
    if k == 0 {
        return None;
    }
    let bounds = token_bounds(&chars, k, n);
    if bounds.len() < 13 {
        return None;
    }
    let b11 = bounds[11];
    let b12 = bounds[12];
    let utime = match parse_u64_at(&chars, b11.0, b11.1) {
        Some(v) => v,
        None => {
            return None;
        },
    };
    let stime = match parse_u64_at(&chars, b12.0, b12.1) {
        Some(v) => v,
        None => {
            return None;
        },
    };
    Some(Stat { utime, stime })
}

/// A text that is empty names no process, so no status is read from it.
pub proof fn lemma_empty_status_has_no_name()
    ensures
        status_name(Seq::<char>::empty()) is None,
{
    assert(lines(Seq::<char>::empty()) == seq![Seq::<char>::empty()]);
    assert(tokens(Seq::<char>::empty()).len() == 0);
}

/// A memory figure given in kibibytes is read as exactly 1024 times that
/// number of bytes, and a figure of zero as zero bytes.
pub proof fn lemma_kib_scaling(label: Seq<char>, line: Seq<char>, keyed: bool, v: u64)
    requires
        (if keyed {
            keyed_value(label, line)
        } else {
            value_of(label, line)
        }) == Some(v),
        v * 1024 <= u64::MAX,
    ensures
        line_value(label, line, keyed, true) == Some((v * 1024) as u64),
        v == 0 ==> line_value(label, line, keyed, true) == Some(0u64),
{
}

/// The process id that a `/proc` entry name stands for: a decimal number
/// that fits in `i32`.
pub open spec fn pid_of(name: Seq<char>) -> Option<i32> {
    match parse_u64(name) {
        Some(v) => if v <= i32::MAX {
            Some(v as i32)
        } else {
            None
        },
        None => None,
    }
}

/// Reads a `/proc` entry name as a process id; other entries give none.
pub fn parse_pid(name: &str) -> (r: Option<i32>)
    ensures
        r == pid_of(name@),
{
    let chars = chars_of(name);
    proof {
        assert(chars@.subrange(0, chars@.len() as int) =~= chars@);
    }
    match parse_u64_at(&chars, 0, chars.len()) {
        Some(v) => if v <= i32::MAX as u64 {
            Some(v as i32)
        } else {
            None
        },
        None => None,
    }
}

/// Builds the record of the process `pid` from its command line and the
/// texts of its status, stat and I/O files; when the status names no
/// process or the stat text does not read, there is no record.
pub fn assemble_proc(
    pid: i32,
    cmdline: String,
    status_text: &str,
    stat_text: &str,
    io_text: &str,
) -> (r: Option<Proc>)
    ensures
        match r {
            Some(p) => {
                &&& p.pid == pid
                &&& p.count == 1
                &&& p.cmdline == cmdline
                &&& status_name(status_text@) == Some(p.status.name@)
                &&& status_fields_of(p.status, status_text@)
                &&& stat_of(stat_text@) == Some(p.stat)
                &&& p.io == io_of(io_text@)
                &&& !p.new
                &&& !p.deleted
            },
            None => status_name(status_text@) is None || stat_of(stat_text@) is None,
        },
{
    let status = match parse_status(status_text) {
        Some(s) => s,
        None => {
            return None;
        },
    };
    let stat = match parse_stat(stat_text) {
        Some(s) => s,
        None => {
            return None;
        },
    };
    let io = match parse_io(io_text) {
        Some(io) => io,
        None => {
            return None;
        },
    };
    Some(Proc { count: 1, pid, cmdline, status, stat, io, new: false, deleted: false })
}

} // verus!
