use procwatch::parsers::{
    get_value, get_value_str, parse_io, parse_mem_info, parse_stat, parse_status, parse_vm_stat,
};
use procwatch::proc::{IoStats, MemInfo, Stat, Status, VmStat};

const STATUS_EXAMPLE_1: &str = "Name:\tkworker/0:0-events\n\
Umask:\t0000\n\
State:\tI (idle)\n\
Tgid:\t27161\n\
Ngid:\t0\n\
Pid:\t27161\n\
PPid:\t2\n\
TracerPid:\t0\n\
Uid:\t0\t0\t0\t0\n\
Gid:\t0\t0\t0\t0\n\
FDSize:\t64\n\
Groups:\n\
NStgid:\t27161\n\
NSpid:\t27161\n\
NSpgid:\t0\n\
NSsid:\t0\n\
Threads:\t1\n\
SigQ:\t0/46445\n\
SigPnd:\t0000000000000000\n\
ShdPnd:\t0000000000000000\n\
SigBlk:\t0000000000000000\n\
SigIgn:\tffffffffffffffff\n\
SigCgt:\t0000000000000000\n\
CapInh:\t0000000000000000\n\
CapPrm:\t0000003fffffffff\n\
CapEff:\t0000003fffffffff\n\
CapBnd:\t0000003fffffffff\n\
CapAmb:\t0000000000000000\n\
NoNewPrivs:\t0\n\
Seccomp:\t0\n\
Speculation_Store_Bypass:\tthread vulnerable\n\
Cpus_allowed:\t01\n\
Cpus_allowed_list:\t0\n\
Mems_allowed:\t00000000,00000000,00000000,00000000,00000000,00000000,00000000,00000000,00000000,00000000,00000000,00000000,00000000,00000000,00000000,00000000,00000000,00000000,00000000,00000000,00000000,00000000,00000000,00000000,00000000,00000000,00000000,00000000,00000000,00000000,00000000,00000001\n\
Mems_allowed_list:\t0\n\
voluntary_ctxt_switches:\t127195\n\
nonvoluntary_ctxt_switches:\t5";

const STATUS_EXAMPLE_2: &str = "Name:\tdropbox 2 3 4\n\
Umask:\t0002\n\
State:\tS (sleeping)\n\
Tgid:\t24104\n\
Ngid:\t0\n\
Pid:\t24104\n\
PPid:\t1\n\
TracerPid:\t0\n\
Uid:\t1000\t1000\t1000\t1000\n\
Gid:\t1000\t1000\t1000\t1000\n\
FDSize:\t256\n\
Groups:\t4 24 27 30 46 112 127 999 1000\n\
NStgid:\t24104\n\
NSpid:\t24104\n\
NSpgid:\t1641\n\
NSsid:\t1641\n\
VmPeak:\t 3393164 kB\n\
VmSize:\t 3326428 kB\n\
VmLck:\t       0 kB\n\
VmPin:\t       0 kB\n\
VmHWM:\t  577716 kB\n\
VmRSS:\t  537500 kB\n\
RssAnon:\t  471628 kB\n\
RssFile:\t   65868 kB\n\
RssShmem:\t       4 kB\n\
VmData:\t 1124308 kB\n\
VmStk:\t     140 kB\n\
VmExe:\t    9056 kB\n\
VmLib:\t   91264 kB\n\
VmPTE:\t    2112 kB\n\
VmSwap:\t       0 kB\n\
HugetlbPages:\t       0 kB\n\
CoreDumping:\t0\n\
THP_enabled:\t1\n\
Threads:\t86\n\
SigQ:\t0/46445\n\
SigPnd:\t0000000000000000\n\
ShdPnd:\t0000000000000000\n\
SigBlk:\t0000000000000000\n\
SigIgn:\t0000000001001000\n\
SigCgt:\t00000001800004e8\n\
CapInh:\t0000000000000000\n\
CapPrm:\t0000000000000000\n\
CapEff:\t0000000000000000\n\
CapBnd:\t0000003fffffffff\n\
CapAmb:\t0000000000000000\n\
NoNewPrivs:\t0\n\
Seccomp:\t0\n\
Speculation_Store_Bypass:\tthread vulnerable\n\
Cpus_allowed:\tff\n\
Cpus_allowed_list:\t0-7\n\
Mems_allowed:\t00000000,00000000,00000000,00000000,00000000,00000000,00000000,00000000,00000000,00000000,00000000,00000000,00000000,00000000,00000000,00000000,00000000,00000000,00000000,00000000,00000000,00000000,00000000,00000000,00000000,00000000,00000000,00000000,00000000,00000000,00000000,00000001\n\
Mems_allowed_list:\t0\n\
voluntary_ctxt_switches:\t105568\n\
nonvoluntary_ctxt_switches:\t1919";

const MEM_INFO_EXAMPLE_1: &str = "MemTotal:              6 kB
MemFree:               2 kB
MemAvailable:          3 kB
SwapTotal:          1024 kB
SwapFree:            512 kB";

const STAT_EXAMPLE_1: &str = "1 (init (boot)) S 0 1 1 0 -1 4194560 10 11 12 13 14 15 16 17 20 0 1 0 18 \
169365504 2922 18446744073709551615 1 1 0 0 0 0 671173123 4096 1260 0 0 0 17 0 0 0 0 0 0 0 0 0 0 0 0 0 0\n";

const VMSTAT_EXAMPLE: &str = "nr_free_pages 2043587
nr_zone_inactive_anon 138946
pgpgin 4460544
pgpgout 12735812
pswpin 174385139
pswpout 223337038
pgalloc_dma 0
";

const IO_EXAMPLE: &str = "rchar: 1234
wchar: 5678
syscr: 9
syscw: 10
read_bytes: 11
write_bytes: 12
cancelled_write_bytes: 13
";

#[test]
fn parsers_parse_status_1() {
    let expected = Some(Status {
        name: "kworker/0:0-events".to_string(),
        vm_peack: 0,
        vm_size: 0,
        vm_lck: 0,
        vm_pin: 0,
        vm_hwm: 0,
        vm_rss: 0,
        rss_anon: 0,
        rss_file: 0,
        rss_shmem: 0,
        vm_data: 0,
        vm_stk: 0,
        vm_exe: 0,
        vm_lib: 0,
        vm_pte: 0,
        vm_swap: 0,
    });

    let status = parse_status(STATUS_EXAMPLE_1);

    assert_eq!(expected, status);
}

#[test]
fn parsers_parse_status_2() {
    let expected = Some(Status {
        name: "dropbox 2 3 4".to_string(),
        vm_peack: 3393164 * 1024,
        vm_size: 3326428 * 1024,
        vm_lck: 0 * 1024,
        vm_pin: 0 * 1024,
        vm_hwm: 577716 * 1024,
        vm_rss: 537500 * 1024,
        rss_anon: 471628 * 1024,
        rss_file: 65868 * 1024,
        rss_shmem: 4 * 1024,
        vm_data: 1124308 * 1024,
        vm_stk: 140 * 1024,
        vm_exe: 9056 * 1024,
        vm_lib: 91264 * 1024,
        vm_pte: 2112 * 1024,
        vm_swap: 0 * 1024,
    });

    let status = parse_status(STATUS_EXAMPLE_2);

    assert_eq!(expected, status);
}

#[test]
fn parsers_parse_status_3() {
    let expected = None;

    let status = parse_status("");

    assert_eq!(expected, status);
}

#[test]
fn parsers_parse_mem_info_1() {
    let expected = MemInfo {
        mem_total: 6 * 1024,
        mem_free: 2 * 1024,
        mem_available: 3 * 1024,
        swap_total: 1024 * 1024,
        swap_free: 512 * 1024,
    };

    let mem_info = parse_mem_info(MEM_INFO_EXAMPLE_1);

    assert_eq!(expected, mem_info);
}

#[test]
fn tests_parse_status_1() {
    let expected = Some(Status {
        name: "kworker/0:0-events".to_string(),
        vm_peack: 0,
        vm_size: 0,
        vm_lck: 0,
        vm_pin: 0,
        vm_hwm: 0,
        vm_rss: 0,
        rss_anon: 0,
        rss_file: 0,
        rss_shmem: 0,
        vm_data: 0,
        vm_stk: 0,
        vm_exe: 0,
        vm_lib: 0,
        vm_pte: 0,
        vm_swap: 0,
    });

    let status = parse_status(STATUS_EXAMPLE_1);

    assert_eq!(expected, status);
}

#[test]
fn tests_parse_status_2() {
    let expected = Some(Status {
        name: "dropbox 2 3 4".to_string(),
        vm_peack: 3393164 * 1024,
        vm_size: 3326428 * 1024,
        vm_lck: 0 * 1024,
        vm_pin: 0 * 1024,
        vm_hwm: 577716 * 1024,
        vm_rss: 537500 * 1024,
        rss_anon: 471628 * 1024,
        rss_file: 65868 * 1024,
        rss_shmem: 4 * 1024,
        vm_data: 1124308 * 1024,
        vm_stk: 140 * 1024,
        vm_exe: 9056 * 1024,
        vm_lib: 91264 * 1024,
        vm_pte: 2112 * 1024,
        vm_swap: 0 * 1024,
    });

    let status = parse_status(STATUS_EXAMPLE_2);

    assert_eq!(expected, status);
}

#[test]
fn tests_parse_status_3() {
    let expected = None;

    let status = parse_status("");

    assert_eq!(expected, status);
}

#[test]
fn parse_stat_1() {
    let expected = Some(Stat { utime: 14, stime: 15 });

    let result = parse_stat(STAT_EXAMPLE_1);

    assert_eq!(expected, result);
}

#[test]
fn tests_parse_mem_info_1() {
    let expected = MemInfo {
        mem_total: 6 * 1024,
        mem_free: 2 * 1024,
        mem_available: 3 * 1024,
        swap_total: 1024 * 1024,
        swap_free: 512 * 1024,
    };

    let mem_info = parse_mem_info(MEM_INFO_EXAMPLE_1);

    assert_eq!(expected, mem_info);
}

#[test]
fn test_parse_vm_stat() {
    let expected = VmStat { pswpin: 174385139, pswpout: 223337038 };

    let vmstat = parse_vm_stat(VMSTAT_EXAMPLE);

    assert_eq!(expected, vmstat);
}

#[test]
fn parse_io_example() {
    let expected = Some(IoStats {
        rchar: 1234,
        wchar: 5678,
        syscr: 9,
        syscw: 10,
        read_bytes: 11,
        write_bytes: 12,
        cancelled_write_bytes: 13,
    });

    let io_stats = parse_io(IO_EXAMPLE);

    assert_eq!(expected, io_stats);
}

#[test]
fn status_without_name_line_is_rejected() {
    assert_eq!(None, parse_status("Umask:\t0002\nVmRSS:\t 12 kB"));
    assert_eq!(None, parse_status("Name:\nVmRSS:\t 12 kB"));
}

#[test]
fn status_kib_fields_scale_by_1024() {
    let status = parse_status("Name:\tsh\nVmRSS:\t 7 kB\nVmSwap:\t 0 kB\n").unwrap();
    assert_eq!(7 * 1024, status.vm_rss);
    assert_eq!(0, status.vm_swap);
    assert_eq!(0, status.vm_size);
    assert_eq!("sh", status.name);
}

#[test]
fn status_later_line_wins_and_bad_numbers_are_skipped() {
    let text = "Name:\ta  b\nVmRSS:\t 1 kB\nVmRSS:\t 2 kB\nVmRSS:\t x kB\nVmSize:\t 18014398509481984 kB";
    let status = parse_status(text).unwrap();
    assert_eq!("a b", status.name);
    assert_eq!(2048, status.vm_rss);
    assert_eq!(0, status.vm_size);
}

#[test]
fn stat_reads_after_last_parenthesis() {
    let text = "42 (a) b) S 1 2 3 4 5 6 7 8 9 10 100 200 0 0";
    assert_eq!(Some(Stat { utime: 100, stime: 200 }), parse_stat(text));
}

#[test]
fn stat_rejects_malformed_text() {
    assert_eq!(None, parse_stat("42 init S 1 2 3 4 5 6 7 8 9 10 100 200"));
    assert_eq!(None, parse_stat("42 (init) S 1 2 3"));
    assert_eq!(None, parse_stat("42 (init) S 1 2 3 4 5 6 7 8 9 10 x 200"));
}

#[test]
fn mem_info_ignores_unknown_and_bad_lines() {
    let text = "MemTotal: 10 kB\nMemTotalX: 99 kB\nMemFree: abc kB\nSwapFree:\n";
    let expected = MemInfo {
        mem_total: 10 * 1024,
        mem_free: 0,
        mem_available: 0,
        swap_total: 0,
        swap_free: 0,
    };
    assert_eq!(expected, parse_mem_info(text));
}

#[test]
fn io_missing_counters_are_zero() {
    let io = parse_io("read_bytes: +5\nsomething else\n").unwrap();
    assert_eq!(5, io.read_bytes);
    assert_eq!(0, io.rchar);
    assert_eq!(0, io.cancelled_write_bytes);
}

#[test]
fn get_value_reads_second_word() {
    assert_eq!(Some(42), get_value("VmRSS:", "VmRSS:\t 42 kB"));
    assert_eq!(None, get_value("VmRSS:", "VmSize:\t 42 kB"));
    assert_eq!(None, get_value("VmRSS:", "VmRSS:"));
    assert_eq!(None, get_value("VmRSS:", "VmRSS: -1"));
    assert_eq!(None, get_value("x", "x 18446744073709551616"));
    assert_eq!(Some(18446744073709551615), get_value("x", "x 18446744073709551615"));
}

#[test]
fn get_value_str_joins_words() {
    assert_eq!(Some("a b c".to_string()), get_value_str("Name:", "Name:\ta   b\tc "));
    assert_eq!(None, get_value_str("Name:", "Name:"));
    assert_eq!(None, get_value_str("Name:", "Other: a"));
}

#[test]
fn pid_names_are_decimal_numbers() {
    assert_eq!(Some(1234), procwatch::parsers::parse_pid("1234"));
    assert_eq!(None, procwatch::parsers::parse_pid("self"));
    assert_eq!(None, procwatch::parsers::parse_pid("-3"));
    assert_eq!(None, procwatch::parsers::parse_pid("2147483648"));
    assert_eq!(Some(2147483647), procwatch::parsers::parse_pid("2147483647"));
}

#[test]
fn assembled_record_starts_unflagged() {
    let record = procwatch::parsers::assemble_proc(
        12,
        "sleep\0100\0".to_string(),
        "Name:\tsleep\nVmRSS:\t 3 kB\n",
        "12 (sleep) S 1 2 3 4 5 6 7 8 9 10 70 80 0",
        "rchar: 4\n",
    )
    .unwrap();
    assert_eq!(12, record.pid);
    assert_eq!(1, record.count);
    assert_eq!("sleep\0100\0", record.cmdline);
    assert_eq!("sleep", record.status.name);
    assert_eq!(3072, record.status.vm_rss);
    assert_eq!(Stat { utime: 70, stime: 80 }, record.stat);
    assert_eq!(4, record.io.rchar);
    assert!(!record.new && !record.deleted);

    assert!(procwatch::parsers::assemble_proc(12, String::new(), "", "12 (a) S", "").is_none());
}
