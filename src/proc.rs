use vstd::prelude::*;

verus! {

/// Scheduler ticks accumulated by a process, as reported in `/proc/<pid>/stat`.
#[derive(Clone, Copy, Debug, PartialEq, Eq, Structural)]
pub struct Stat {
    /// Clock ticks spent in user mode.
    pub utime: u64,
    /// Clock ticks spent in kernel mode.
    pub stime: u64,
}

/// I/O counters of a process, as reported in `/proc/<pid>/io`.
#[derive(Clone, Copy, Debug, PartialEq, Eq, Structural)]
pub struct IoStats {
    /// Bytes returned by successful read-like system calls.
    pub rchar: u64,
    /// Bytes handed to successful write-like system calls.
    pub wchar: u64,
    /// Number of read-like system calls.
    pub syscr: u64,
    /// Number of write-like system calls.
    pub syscw: u64,
    /// Bytes really fetched from the storage layer.
    pub read_bytes: u64,
    /// Bytes really sent to the storage layer.
    pub write_bytes: u64,
    /// Bytes whose writeback was saved by a truncation.
    pub cancelled_write_bytes: u64,
}

/// Memory figures of a process, as reported in `/proc/<pid>/status`, in bytes.
#[derive(Clone, Debug, PartialEq)]
pub struct Status {
    pub name: String,
    pub vm_peack: u64,
    pub vm_size: u64,
    pub vm_lck: u64,
    pub vm_pin: u64,
    pub vm_hwm: u64,
    pub vm_rss: u64,
    pub rss_anon: u64,
    pub rss_file: u64,
    pub rss_shmem: u64,
    pub vm_data: u64,
    pub vm_stk: u64,
    pub vm_exe: u64,
    pub vm_lib: u64,
    pub vm_pte: u64,
    pub vm_swap: u64,
}

/// System-wide memory figures from `/proc/meminfo`, in bytes.
#[derive(Clone, Copy, Debug, PartialEq, Eq, Structural)]
pub struct MemInfo {
    pub mem_total: u64,
    pub mem_free: u64,
    pub mem_available: u64,
    pub swap_total: u64,
    pub swap_free: u64,
}

/// Cumulative swap activity from `/proc/vmstat`, in pages.
#[derive(Clone, Copy, Debug, PartialEq, Eq, Structural)]
pub struct VmStat {
    pub pswpin: u64,
    pub pswpout: u64,
}

/// One process, or a group of processes merged under one name.
///
/// For a group, `count` is the number of member processes, and `pid` and
/// `cmdline` are those of the first member.
#[derive(Clone, Debug, PartialEq)]
pub struct Proc {
    /// Number of processes folded into this record.
    pub count: i32,
    pub pid: i32,
    pub cmdline: String,
    pub status: Status,
    pub stat: Stat,
    pub io: IoStats,
    /// The pid was absent from the previous generation.
    pub new: bool,
    /// The pid vanished since the previous generation.
    pub deleted: bool,
}

/// `a + b`, held at `u64::MAX` when the sum does not fit.
pub open spec fn sat_add(a: u64, b: u64) -> u64 {
    if a + b > u64::MAX {
        u64::MAX
    } else {
        (a + b) as u64
    }
}

/// `a - b`, held at zero when `b > a`.
pub open spec fn sat_sub(a: u64, b: u64) -> u64 {
    if a >= b {
        (a - b) as u64
    } else {
        0
    }
}

/// `a + b` held within the range of `i32`.
pub open spec fn sat_add_i32(a: i32, b: i32) -> i32 {
    if a + b > i32::MAX {
        i32::MAX
    } else if a + b < i32::MIN {
        i32::MIN
    } else {
        (a + b) as i32
    }
}

impl Stat {
    pub open spec fn spec_merge(self, rhs: Stat) -> Stat {
        Stat { utime: sat_add(self.utime, rhs.utime), stime: sat_add(self.stime, rhs.stime) }
    }

    pub open spec fn spec_delta(self, prev: Stat) -> Stat {
        Stat { utime: sat_sub(self.utime, prev.utime), stime: sat_sub(self.stime, prev.stime) }
    }

    /// Both tick counts summed, field by field.
    pub fn merged(&self, rhs: &Stat) -> (r: Stat)
        ensures
            r == self.spec_merge(*rhs),
    {
        Stat {
            utime: self.utime.saturating_add(rhs.utime),
            stime: self.stime.saturating_add(rhs.stime),
        }
    }

    /// The ticks spent since `prev` was sampled.
    pub fn delta_since(&self, prev: &Stat) -> (r: Stat)
        ensures
            r == self.spec_delta(*prev),
    {
        Stat {
            utime: self.utime.saturating_sub(prev.utime),
            stime: self.stime.saturating_sub(prev.stime),
        }
    }
}

impl IoStats {
    pub open spec fn spec_merge(self, rhs: IoStats) -> IoStats {
        IoStats {
            rchar: sat_add(self.rchar, rhs.rchar),
            wchar: sat_add(self.wchar, rhs.wchar),
            syscr: sat_add(self.syscr, rhs.syscr),
            syscw: sat_add(self.syscw, rhs.syscw),
            read_bytes: sat_add(self.read_bytes, rhs.read_bytes),
            write_bytes: sat_add(self.write_bytes, rhs.write_bytes),
            cancelled_write_bytes: sat_add(self.cancelled_write_bytes, rhs.cancelled_write_bytes),
        }
    }

    pub open spec fn spec_delta(self, prev: IoStats) -> IoStats {
        IoStats {
            rchar: sat_sub(self.rchar, prev.rchar),
            wchar: sat_sub(self.wchar, prev.wchar),
            syscr: sat_sub(self.syscr, prev.syscr),
            syscw: sat_sub(self.syscw, prev.syscw),
            read_bytes: sat_sub(self.read_bytes, prev.read_bytes),
            write_bytes: sat_sub(self.write_bytes, prev.write_bytes),
            cancelled_write_bytes: sat_sub(self.cancelled_write_bytes, prev.cancelled_write_bytes),
        }
    }

    /// All counters at zero.
    pub fn zero() -> (r: IoStats)
        ensures
            r == (IoStats {
                rchar: 0,
                wchar: 0,
                syscr: 0,
                syscw: 0,
                read_bytes: 0,
                write_bytes: 0,
                cancelled_write_bytes: 0,
            }),
    {
        IoStats {
            rchar: 0,
            wchar: 0,
            syscr: 0,
            syscw: 0,
            read_bytes: 0,
            write_bytes: 0,
            cancelled_write_bytes: 0,
        }
    }

    /// All counters summed, field by field.
    pub fn merged(&self, rhs: &IoStats) -> (r: IoStats)
        ensures
            r == self.spec_merge(*rhs),
    {
        IoStats {
            rchar: self.rchar.saturating_add(rhs.rchar),
            wchar: self.wchar.saturating_add(rhs.wchar),
            syscr: self.syscr.saturating_add(rhs.syscr),
            syscw: self.syscw.saturating_add(rhs.syscw),
            read_bytes: self.read_bytes.saturating_add(rhs.read_bytes),
            write_bytes: self.write_bytes.saturating_add(rhs.write_bytes),
            cancelled_write_bytes: self.cancelled_write_bytes.saturating_add(
                rhs.cancelled_write_bytes,
            ),
        }
    }

    /// The I/O done since `prev` was sampled.
    pub fn delta_since(&self, prev: &IoStats) -> (r: IoStats)
        ensures
            r == self.spec_delta(*prev),
    {
        IoStats {
            rchar: self.rchar.saturating_sub(prev.rchar),
            wchar: self.wchar.saturating_sub(prev.wchar),
            syscr: self.syscr.saturating_sub(prev.syscr),
            syscw: self.syscw.saturating_sub(prev.syscw),
            read_bytes: self.read_bytes.saturating_sub(prev.read_bytes),
            write_bytes: self.write_bytes.saturating_sub(prev.write_bytes),
            cancelled_write_bytes: self.cancelled_write_bytes.saturating_sub(
                prev.cancelled_write_bytes,
            ),
        }
    }
}

impl VmStat {
    /// The swap activity between the sample `prev` and this one.
    pub fn delta_since(&self, prev: &VmStat) -> (r: VmStat)
        ensures
            r.pswpin == sat_sub(self.pswpin, prev.pswpin),
            r.pswpout == sat_sub(self.pswpout, prev.pswpout),
    {
        VmStat {
            pswpin: self.pswpin.saturating_sub(prev.pswpin),
            pswpout: self.pswpout.saturating_sub(prev.pswpout),
        }
    }
}

impl Status {
    /// An exact copy.
    pub fn duplicate(&self) -> (r: Status)
        ensures
            r == *self,
    {
        Status {
            name: self.name.clone(),
            vm_peack: self.vm_peack,
            vm_size: self.vm_size,
            vm_lck: self.vm_lck,
            vm_pin: self.vm_pin,
            vm_hwm: self.vm_hwm,
            vm_rss: self.vm_rss,
            rss_anon: self.rss_anon,
            rss_file: self.rss_file,
            rss_shmem: self.rss_shmem,
            vm_data: self.vm_data,
            vm_stk: self.vm_stk,
            vm_exe: self.vm_exe,
            vm_lib: self.vm_lib,
            vm_pte: self.vm_pte,
            vm_swap: self.vm_swap,
        }
    }
}

impl Proc {
    /// `self` with the counters of the interval since `prev`: scheduler
    /// ticks and I/O are differences, every other field is kept.
    pub open spec fn spec_delta(self, prev: Proc) -> Proc {
        Proc { stat: self.stat.spec_delta(prev.stat), io: self.io.spec_delta(prev.io), ..self }
    }

    /// `self` flagged as first seen in this generation.
    pub open spec fn spec_mark_new(self) -> Proc {
        Proc { new: true, ..self }
    }

    /// `self` flagged as vanished since the previous generation.
    pub open spec fn spec_mark_deleted(self) -> Proc {
        Proc { deleted: true, ..self }
    }

    /// `self` and `rhs` folded into one group record.
    ///
    /// Counts, resident and swapped memory, ticks and I/O are summed; the
    /// group is new or deleted when either side is; everything else is
    /// taken from `self`.
    pub open spec fn spec_merge(self, rhs: Proc) -> Proc {
        Proc {
            count: sat_add_i32(self.count, rhs.count),
            status: Status {
                vm_rss: sat_add(self.status.vm_rss, rhs.status.vm_rss),
                vm_swap: sat_add(self.status.vm_swap, rhs.status.vm_swap),
                ..self.status
            },
            stat: self.stat.spec_merge(rhs.stat),
            io: self.io.spec_merge(rhs.io),
            new: self.new || rhs.new,
            deleted: self.deleted || rhs.deleted,
            ..self
        }
    }

    /// An exact copy.
    pub fn duplicate(&self) -> (r: Proc)
        ensures
            r == *self,
    {
        Proc {
            count: self.count,
            pid: self.pid,
            cmdline: self.cmdline.clone(),
            status: self.status.duplicate(),
            stat: self.stat,
            io: self.io,
            new: self.new,
            deleted: self.deleted,
        }
    }

    /// The record with its cumulative counters turned into the amounts of
    /// the interval since `prev` was sampled.
    pub fn delta_since(&self, prev: &Proc) -> (r: Proc)
        ensures
            r == self.spec_delta(*prev),
    {
        let mut r = self.duplicate();
        r.stat = self.stat.delta_since(&prev.stat);
        r.io = self.io.delta_since(&prev.io);
        r
    }

    /// Folds `rhs` into this record, which then stands for both.
    pub fn absorb(&mut self, rhs: &Proc)
        ensures
            *final(self) == old(self).spec_merge(*rhs),
    {
        let sum: i64 = self.count as i64 + rhs.count as i64;
        self.count = if sum > i32::MAX as i64 {
            i32::MAX
        } else if sum < i32::MIN as i64 {
            i32::MIN
        } else {
            sum as i32
        };
        self.status.vm_rss = self.status.vm_rss.saturating_add(rhs.status.vm_rss);
        self.status.vm_swap = self.status.vm_swap.saturating_add(rhs.status.vm_swap);
        self.stat = self.stat.merged(&rhs.stat);
        self.io = self.io.merged(&rhs.io);
        self.new = self.new || rhs.new;
        self.deleted = self.deleted || rhs.deleted;
    }
}

} // verus!
