use procwatch::proc::{IoStats, Proc, Stat, Status};
use procwatch::process_list::ProcessList;

fn status(name: &str, rss: u64) -> Status {
    Status {
        name: name.to_string(),
        vm_peack: 0,
        vm_size: 0,
        vm_lck: 0,
        vm_pin: 0,
        vm_hwm: 0,
        vm_rss: rss,
        rss_anon: 0,
        rss_file: 0,
        rss_shmem: 0,
        vm_data: 0,
        vm_stk: 0,
        vm_exe: 0,
        vm_lib: 0,
        vm_pte: 0,
        vm_swap: 0,
    }
}

fn record(pid: i32, cpu: u64, read: u64) -> Proc {
    Proc {
        count: 1,
        pid,
        cmdline: format!("cmd{}", pid),
        status: status("p", 100),
        stat: Stat { utime: cpu, stime: 0 },
        io: IoStats {
            rchar: read,
            wchar: 0,
            syscr: 0,
            syscw: 0,
            read_bytes: read,
            write_bytes: 0,
            cancelled_write_bytes: 0,
        },
        new: false,
        deleted: false,
    }
}

#[test]
fn first_generation_is_all_new() {
    let mut list = ProcessList::new();
    let mut batch = vec![record(1, 5, 0), record(2, 3, 0)];
    list.on_list(&mut batch);
    assert_eq!(2, batch.len());
    assert!(batch[0].new && batch[1].new);
    assert!(!batch[0].deleted && !batch[1].deleted);
    assert_eq!(5, batch[0].stat.utime);
    assert_eq!(3, batch[1].stat.utime);
}

#[test]
fn two_cycles_give_deltas_new_and_tombstone() {
    let mut list = ProcessList::new();
    let mut first = vec![record(1, 5, 0), record(2, 3, 0)];
    list.on_list(&mut first);

    let mut second = vec![record(1, 8, 0), record(3, 1, 0)];
    list.on_list(&mut second);

    assert_eq!(3, second.len());
    assert_eq!(1, second[0].pid);
    assert_eq!(3, second[0].stat.utime);
    assert!(!second[0].new);
    assert!(!second[0].deleted);

    assert_eq!(3, second[1].pid);
    assert_eq!(1, second[1].stat.utime);
    assert!(second[1].new);

    assert_eq!(2, second[2].pid);
    assert!(second[2].deleted);
    assert_eq!(3, second[2].stat.utime);
    assert!(!second[2].new);
}

#[test]
fn io_counters_become_interval_amounts() {
    let mut list = ProcessList::new();
    let mut first = vec![record(7, 10, 1000)];
    list.on_list(&mut first);
    let mut second = vec![record(7, 25, 4096)];
    list.on_list(&mut second);
    assert_eq!(1, second.len());
    assert_eq!(15, second[0].stat.utime);
    assert_eq!(3096, second[0].io.rchar);
    assert_eq!(3096, second[0].io.read_bytes);
    assert_eq!(100, second[0].status.vm_rss);
}

#[test]
fn steady_pids_give_no_tombstones() {
    let mut list = ProcessList::new();
    for round in 1..4u64 {
        let mut batch = vec![record(1, 10 * round, 0), record(2, 20 * round, 0)];
        list.on_list(&mut batch);
        assert_eq!(2, batch.len());
        assert!(batch.iter().all(|p| !p.deleted));
        if round > 1 {
            assert_eq!(10, batch[0].stat.utime);
            assert_eq!(20, batch[1].stat.utime);
            assert!(batch.iter().all(|p| !p.new));
        }
    }
}

#[test]
fn tombstone_is_shown_once() {
    let mut list = ProcessList::new();
    let mut first = vec![record(1, 5, 0)];
    list.on_list(&mut first);
    let mut second: Vec<Proc> = Vec::new();
    list.on_list(&mut second);
    assert_eq!(1, second.len());
    assert!(second[0].deleted);
    let mut third: Vec<Proc> = Vec::new();
    list.on_list(&mut third);
    assert!(third.is_empty());
}

#[test]
fn decreasing_counter_is_held_at_zero() {
    let mut list = ProcessList::new();
    let mut first = vec![record(9, 50, 0)];
    list.on_list(&mut first);
    let mut second = vec![record(9, 20, 0)];
    list.on_list(&mut second);
    assert_eq!(0, second[0].stat.utime);
}
