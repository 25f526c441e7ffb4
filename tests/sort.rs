use std::cmp::Ordering;

use procwatch::proc::{IoStats, Proc, Stat, Status};
use procwatch::sort::{
    comp, count_sort_function, cpu_sort_function, next_index, pid_sort_function, previous_index,
    rss_sort_function, sort, sum_sort_function, swap_sort_function, SortKey, SORT_KEY_COUNT,
};

fn record(pid: i32, rss: u64, swap: u64, cpu: u64) -> Proc {
    Proc {
        count: pid,
        pid,
        cmdline: String::new(),
        status: Status {
            name: "n".to_string(),
            vm_peack: 0,
            vm_size: 0,
            vm_lck: 0,
            vm_pin: 0,
            vm_hwm: 0,
            vm_rss: rss,
            rss_anon: 0,
            rss_file: 0,
            rss_shmem: 0,
            vm_data: 0,
            vm_stk: 0,
            vm_exe: 0,
            vm_lib: 0,
            vm_pte: 0,
            vm_swap: swap,
        },
        stat: Stat { utime: cpu, stime: cpu },
        io: IoStats {
            rchar: 0,
            wchar: 0,
            syscr: 0,
            syscw: 0,
            read_bytes: 0,
            write_bytes: 0,
            cancelled_write_bytes: 0,
        },
        new: false,
        deleted: false,
    }
}

#[test]
fn sort_by_resident_memory_descending() {
    let mut rows = vec![record(1, 10, 0, 0), record(2, 50, 0, 0), record(3, 30, 0, 0)];
    sort(&mut rows, SortKey::Rss);
    let rss: Vec<u64> = rows.iter().map(|p| p.status.vm_rss).collect();
    assert_eq!(vec![50, 30, 10], rss);
}

#[test]
fn sort_by_each_key() {
    let base = vec![record(2, 5, 9, 1), record(7, 1, 1, 8), record(4, 3, 4, 4)];

    let mut rows = base.clone();
    sort(&mut rows, SortKey::Pid);
    assert_eq!(vec![7, 4, 2], rows.iter().map(|p| p.pid).collect::<Vec<i32>>());

    let mut rows = base.clone();
    sort(&mut rows, SortKey::Count);
    assert_eq!(vec![7, 4, 2], rows.iter().map(|p| p.count).collect::<Vec<i32>>());

    let mut rows = base.clone();
    sort(&mut rows, SortKey::Cpu);
    assert_eq!(vec![7, 4, 2], rows.iter().map(|p| p.pid).collect::<Vec<i32>>());

    let mut rows = base.clone();
    sort(&mut rows, SortKey::Swap);
    assert_eq!(vec![2, 4, 7], rows.iter().map(|p| p.pid).collect::<Vec<i32>>());

    let mut rows = base.clone();
    sort(&mut rows, SortKey::Sum);
    assert_eq!(vec![2, 4, 7], rows.iter().map(|p| p.pid).collect::<Vec<i32>>());
}

#[test]
fn sort_keeps_every_row() {
    let mut rows = vec![record(1, 3, 0, 0), record(2, 3, 0, 0), record(3, 1, 0, 0), record(4, 9, 0, 0)];
    sort(&mut rows, SortKey::Rss);
    let mut pids: Vec<i32> = rows.iter().map(|p| p.pid).collect();
    assert_eq!(4, rows[0].pid);
    assert_eq!(3, rows[3].pid);
    pids.sort();
    assert_eq!(vec![1, 2, 3, 4], pids);
}

#[test]
fn comparators_put_larger_first() {
    assert_eq!(Ordering::Less, comp(5, 3));
    assert_eq!(Ordering::Greater, comp(3, 5));
    assert_eq!(Ordering::Equal, comp(4, 4));
    let a = record(1, 10, 1, 1);
    let b = record(2, 5, 20, 0);
    assert_eq!(Ordering::Greater, pid_sort_function(&a, &b));
    assert_eq!(Ordering::Greater, count_sort_function(&a, &b));
    assert_eq!(Ordering::Less, cpu_sort_function(&a, &b));
    assert_eq!(Ordering::Less, rss_sort_function(&a, &b));
    assert_eq!(Ordering::Greater, swap_sort_function(&a, &b));
    assert_eq!(Ordering::Greater, sum_sort_function(&a, &b));
}

#[test]
fn keys_by_index_and_rotation() {
    assert_eq!(Some(SortKey::Pid), SortKey::at(false, 0));
    assert_eq!(Some(SortKey::Count), SortKey::at(true, 0));
    assert_eq!(Some(SortKey::Cpu), SortKey::at(true, 1));
    assert_eq!(Some(SortKey::Rss), SortKey::at(false, 2));
    assert_eq!(Some(SortKey::Swap), SortKey::at(false, 3));
    assert_eq!(Some(SortKey::Sum), SortKey::at(false, 4));
    assert_eq!(None, SortKey::at(false, 5));
    assert_eq!(2, next_index(1, SORT_KEY_COUNT));
    assert_eq!(0, next_index(4, SORT_KEY_COUNT));
    assert_eq!(0, previous_index(1, SORT_KEY_COUNT));
    assert_eq!(4, previous_index(0, SORT_KEY_COUNT));
}
