use procwatch::group::group;
use procwatch::proc::{IoStats, Proc, Stat, Status};

fn record(pid: i32, name: &str, rss: u64, swap: u64) -> Proc {
    Proc {
        count: 1,
        pid,
        cmdline: String::new(),
        status: Status {
            name: name.to_string(),
            vm_peack: 0,
            vm_size: 0,
            vm_lck: 0,
            vm_pin: 0,
            vm_hwm: 0,
            vm_rss: rss,
            rss_anon: 0,
            rss_file: 0,
            rss_shmem: 0,
            vm_data: 0,
            vm_stk: 0,
            vm_exe: 0,
            vm_lib: 0,
            vm_pte: 0,
            vm_swap: swap,
        },
        stat: Stat { utime: pid as u64, stime: 1 },
        io: IoStats {
            rchar: 1,
            wchar: 2,
            syscr: 3,
            syscw: 4,
            read_bytes: 5,
            write_bytes: 6,
            cancelled_write_bytes: 7,
        },
        new: false,
        deleted: false,
    }
}

#[test]
fn merging_two_records_of_one_name() {
    let merged = group(vec![record(1, "x", 100, 0), record(2, "x", 50, 0)]);
    assert_eq!(1, merged.len());
    assert_eq!("x", merged[0].status.name);
    assert_eq!(2, merged[0].count);
    assert_eq!(150, merged[0].status.vm_rss);

    let swapped = group(vec![record(2, "x", 50, 0), record(1, "x", 100, 0)]);
    assert_eq!(1, swapped.len());
    assert_eq!("x", swapped[0].status.name);
    assert_eq!(2, swapped[0].count);
    assert_eq!(150, swapped[0].status.vm_rss);
}

#[test]
fn groups_keep_first_seen_order_and_sum_counters() {
    let mut a = record(1, "a", 10, 1);
    a.new = true;
    let mut c = record(3, "a", 30, 3);
    c.deleted = true;
    let rows = group(vec![a, record(2, "b", 20, 2), c]);
    assert_eq!(2, rows.len());
    assert_eq!("a", rows[0].status.name);
    assert_eq!(1, rows[0].pid);
    assert_eq!(2, rows[0].count);
    assert_eq!(40, rows[0].status.vm_rss);
    assert_eq!(4, rows[0].status.vm_swap);
    assert_eq!(4, rows[0].stat.utime);
    assert_eq!(2, rows[0].stat.stime);
    assert_eq!(2, rows[0].io.rchar);
    assert_eq!(14, rows[0].io.cancelled_write_bytes);
    assert!(rows[0].new && rows[0].deleted);
    assert_eq!("b", rows[1].status.name);
    assert_eq!(1, rows[1].count);
    assert!(!rows[1].new && !rows[1].deleted);
}

#[test]
fn grouping_nothing_gives_nothing() {
    assert!(group(Vec::new()).is_empty());
}

#[test]
fn merged_sums_saturate() {
    let rows = group(vec![record(1, "x", u64::MAX, 0), record(2, "x", 5, 0)]);
    assert_eq!(u64::MAX, rows[0].status.vm_rss);
}
