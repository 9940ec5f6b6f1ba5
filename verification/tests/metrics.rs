use ecosystem::diagnostics::TraceCollector;
use ecosystem::metrics::cpu::{
    core_delta, cpu_core_deltas, cpu_totals_fit, parse_proc_stat, CpuCoreDelta, CpuParseError,
    CpuReading, CpuSampler, CpuSamplerError, CpuUsageError,
};
use ecosystem::metrics::disk::{
    disk_sector_deltas, parse_proc_diskstats, DiskParseError, DiskReading, DiskSampler,
    DiskSamplerError, DiskSectorDeltas,
};
use ecosystem::metrics::memory::{
    check_memory_sample, parse_meminfo, MemoryParseError, MemoryPressureError, MemorySample,
    MemorySampler, MemorySamplerError,
};
use ecosystem::metrics::network::{
    network_byte_deltas, parse_proc_net_dev, NetworkByteDeltas, NetworkParseError,
    NetworkReading, NetworkSampler, NetworkSamplerError,
};

const PROC_STAT_PREVIOUS: &str = "\
cpu  100 0 50 1000 10 0 0 0 0 0
cpu0 40 0 10 500 5 0 0 0 0 0
cpu1 60 0 40 500 5 0 0 0 0 0
intr 1
ctxt 2
";

const PROC_STAT_CURRENT: &str = "\
cpu  130 0 70 1070 10 0 0 0 0 0
cpu0 50 0 20 530 5 0 0 0 0 0
cpu1 80 0 50 530 5 0 0 0 0 0
intr 3
ctxt 4
";

const MEMINFO_NORMAL: &str = "\
MemTotal:       1000000 kB
MemFree:         100000 kB
MemAvailable:    250000 kB
Buffers:          10000 kB
Cached:          200000 kB
";

const PROC_NET_DEV_PREVIOUS: &str = "\
Inter-|   Receive                                                |  Transmit
 face |bytes    packets errs drop fifo frame compressed multicast|bytes    packets errs drop fifo colls carrier compressed
    lo: 1000 10 0 0 0 0 0 0 1000 10 0 0 0 0 0 0
docker0: 4000 10 0 0 0 0 0 0 5000 10 0 0 0 0 0 0
 enp3s0: 100000 20 0 0 0 0 0 0 50000 20 0 0 0 0 0 0
  wlan0: 300000 30 0 0 0 0 0 0 200000 30 0 0 0 0 0 0
";

const PROC_NET_DEV_CURRENT: &str = "\
Inter-|   Receive                                                |  Transmit
 face |bytes    packets errs drop fifo frame compressed multicast|bytes    packets errs drop fifo colls carrier compressed
    lo: 9000 10 0 0 0 0 0 0 9000 10 0 0 0 0 0 0
docker0: 9000 10 0 0 0 0 0 0 9000 10 0 0 0 0 0 0
 enp3s0: 1100000 20 0 0 0 0 0 0 250000 20 0 0 0 0 0 0
  wlan0: 1300000 30 0 0 0 0 0 0 1100000 30 0 0 0 0 0 0
";

const PROC_DISKSTATS_PREVIOUS: &str = "\
   7       0 loop0 10 0 100 0 10 0 100 0 0 0 0 0 0 0 0 0 0
   8       0 sda 100 0 1000 0 50 0 500 0 0 0 0 0 0 0 0 0 0
   8       1 sda1 100 0 99999 0 50 0 99999 0 0 0 0 0 0 0 0 0 0
 259       0 nvme0n1 100 0 2000 0 50 0 1000 0 0 0 0 0 0 0 0 0 0
 259       1 nvme0n1p1 100 0 99999 0 50 0 99999 0 0 0 0 0 0 0 0 0 0
 254       0 dm-0 100 0 99999 0 50 0 99999 0 0 0 0 0 0 0 0 0 0
";

const PROC_DISKSTATS_CURRENT: &str = "\
   7       0 loop0 10 0 5000 0 10 0 5000 0 0 0 0 0 0 0 0 0 0
   8       0 sda 110 0 3048 0 60 0 1524 0 0 0 0 0 0 0 0 0 0
   8       1 sda1 110 0 199999 0 60 0 199999 0 0 0 0 0 0 0 0 0 0
 259       0 nvme0n1 110 0 4048 0 60 0 2024 0 0 0 0 0 0 0 0 0 0
 259       1 nvme0n1p1 110 0 199999 0 60 0 199999 0 0 0 0 0 0 0 0 0 0
 254       0 dm-0 110 0 199999 0 60 0 199999 0 0 0 0 0 0 0 0 0 0
";

#[test]
fn proc_stat_parser_extracts_logical_cpu_core_counters_only() {
    let sample = parse_proc_stat(PROC_STAT_PREVIOUS).expect("valid proc stat fixture");

    assert_eq!(sample.cores.len(), 2);
    assert_eq!(sample.cores[0].id, 0);
    assert_eq!(sample.cores[0].user, 40);
    assert_eq!(sample.cores[0].system, 10);
    assert_eq!(sample.cores[0].idle, 500);
    assert_eq!(sample.cores[1].id, 1);
    assert_eq!(sample.cores[1].system, 40);
}

#[test]
fn cpu_usage_delta_treats_idle_and_iowait_as_not_busy() {
    let previous = parse_proc_stat(PROC_STAT_PREVIOUS).expect("valid previous sample");
    let current = parse_proc_stat(PROC_STAT_CURRENT).expect("valid current sample");

    let deltas = cpu_core_deltas(&previous, &current).expect("matching core samples");
    let usage: Vec<f32> = deltas
        .iter()
        .map(|delta| delta.busy as f32 / delta.total as f32)
        .collect();

    assert_eq!(usage.len(), 2);
    assert!((usage[0] - 0.40).abs() < f32::EPSILON);
    assert!((usage[1] - 0.50).abs() < f32::EPSILON);
}

#[test]
fn cpu_usage_delta_returns_zero_for_unchanged_counters() {
    let previous = parse_proc_stat(PROC_STAT_PREVIOUS).expect("valid previous sample");
    let current = parse_proc_stat(PROC_STAT_PREVIOUS).expect("valid current sample");

    let deltas = cpu_core_deltas(&previous, &current).expect("matching core samples");

    assert!(deltas.iter().all(|delta| delta.total == 0 && delta.busy == 0));
    assert_eq!(deltas.len(), 2);
}

#[test]
fn cpu_usage_delta_rejects_changed_core_count() {
    let previous = parse_proc_stat(PROC_STAT_PREVIOUS).expect("valid previous sample");
    let current = parse_proc_stat("cpu0 50 0 20 530 5 0 0 0 0 0\n").expect("valid one-core sample");

    let error = cpu_core_deltas(&previous, &current).expect_err("core count mismatch");

    assert_eq!(
        error.message(),
        "CPU sample core count changed: previous 2, current 1"
    );
}

#[test]
fn proc_stat_parser_reports_malformed_core_lines() {
    let error = parse_proc_stat("cpu0 10 20 nope 40\n").expect_err("invalid counter");

    assert!(error
        .message()
        .contains("invalid CPU counter 'nope' on line 1"));
}

#[test]
fn meminfo_parser_extracts_total_and_available_memory() {
    let sample = parse_meminfo(MEMINFO_NORMAL).expect("valid meminfo fixture");

    assert_eq!(sample.total_kib, 1_000_000);
    assert_eq!(sample.available_kib, 250_000);
}

#[test]
fn meminfo_parser_reports_missing_available_memory() {
    let error = parse_meminfo("MemTotal: 1000000 kB\n").expect_err("missing MemAvailable");

    assert_eq!(error.message(), "missing MemAvailable in /proc/meminfo");
}

#[test]
fn meminfo_parser_reports_invalid_numeric_values() {
    let error = parse_meminfo("MemTotal: nope kB\nMemAvailable: 1 kB\n")
        .expect_err("invalid MemTotal value");

    assert_eq!(
        error.message(),
        "invalid MemTotal value 'nope' in /proc/meminfo"
    );
}

#[test]
fn proc_net_dev_parser_filters_loopback_and_container_interfaces() {
    let sample = parse_proc_net_dev(PROC_NET_DEV_PREVIOUS).expect("valid network fixture");

    assert_eq!(sample.interfaces.len(), 2);
    assert_eq!(sample.interfaces[0].name, "enp3s0");
    assert_eq!(sample.interfaces[0].rx_bytes, 100_000);
    assert_eq!(sample.interfaces[0].tx_bytes, 50_000);
    assert_eq!(sample.interfaces[1].name, "wlan0");
}

#[test]
fn network_flow_delta_normalizes_download_and_upload_activity() {
    let previous = parse_proc_net_dev(PROC_NET_DEV_PREVIOUS).expect("valid previous sample");
    let current = parse_proc_net_dev(PROC_NET_DEV_CURRENT).expect("valid current sample");

    let deltas = network_byte_deltas(&previous, &current).expect("totals fit");
    let download = (deltas.download as f32 / 2_000_000.0).clamp(0.0, 1.0);
    let upload = (deltas.upload as f32 / 2_000_000.0).clamp(0.0, 1.0);

    assert_eq!(deltas.download, 2_000_000);
    assert_eq!(deltas.upload, 1_100_000);
    assert!((download - 1.0).abs() < f32::EPSILON);
    assert!((upload - 0.55).abs() < f32::EPSILON);
}

#[test]
fn proc_diskstats_parser_filters_partitions_and_virtual_devices() {
    let sample = parse_proc_diskstats(PROC_DISKSTATS_PREVIOUS).expect("valid diskstats fixture");

    assert_eq!(sample.devices.len(), 2);
    assert_eq!(sample.devices[0].name, "sda");
    assert_eq!(sample.devices[0].sectors_read, 1_000);
    assert_eq!(sample.devices[0].sectors_written, 500);
    assert_eq!(sample.devices[1].name, "nvme0n1");
}

#[test]
fn disk_activity_delta_normalizes_read_and_write_rates() {
    let previous = parse_proc_diskstats(PROC_DISKSTATS_PREVIOUS).expect("valid previous sample");
    let current = parse_proc_diskstats(PROC_DISKSTATS_CURRENT).expect("valid current sample");

    let deltas = disk_sector_deltas(&previous, &current).expect("totals fit");
    let read = (deltas.read as f32 / 4_096.0).clamp(0.0, 1.0);
    let write = (deltas.written as f32 / 4_096.0).clamp(0.0, 1.0);

    assert_eq!(deltas.read, 4_096);
    assert_eq!(deltas.written, 2_048);
    assert!((read - 1.0).abs() < f32::EPSILON);
    assert!((write - 0.5).abs() < f32::EPSILON);
}

#[test]
fn proc_stat_parser_reports_missing_counters_with_their_index() {
    let error = parse_proc_stat("intr 1\ncpu3 1 2 3\n").expect_err("too few counters");

    assert_eq!(
        error,
        CpuParseError::MissingCounter { line: 2, index: 3 }
    );
    assert_eq!(error.message(), "missing CPU counter 3 on line 2");
}

#[test]
fn proc_stat_parser_reports_core_ids_that_do_not_fit() {
    let error = parse_proc_stat("cpu99999999999999999999999 1 2 3 4 5 6 7 8\n")
        .expect_err("core id overflows");

    assert_eq!(
        error.message(),
        "invalid CPU core id '99999999999999999999999' on line 1"
    );
}

#[test]
fn proc_stat_parser_accepts_plus_signs_and_crlf_line_endings() {
    let sample = parse_proc_stat("cpu0 +1 2 3 4 5 6 7 8\r\ncpuX 1\r\n").expect("valid sample");

    assert_eq!(sample.cores.len(), 1);
    assert_eq!(sample.cores[0].user, 1);
    assert_eq!(sample.cores[0].steal, 8);
}

#[test]
fn proc_stat_parser_rejects_counters_above_u64() {
    let error = parse_proc_stat("cpu0 18446744073709551616 0 0 0 0 0 0 0\n")
        .expect_err("counter overflows");

    assert!(matches!(error, CpuParseError::InvalidCounter { line: 1, .. }));
}

#[test]
fn core_delta_saturates_when_counters_go_backwards() {
    let previous = parse_proc_stat("cpu0 100 0 0 100 0 0 0 0\n").expect("valid sample");
    let current = parse_proc_stat("cpu0 50 0 0 50 0 0 0 0\n").expect("valid sample");

    let delta = core_delta(previous.cores[0], current.cores[0]);

    assert_eq!(delta.total, 0);
    assert_eq!(delta.busy, 0);
}

#[test]
fn meminfo_parser_reports_missing_total_and_missing_values() {
    let error = parse_meminfo("MemAvailable: 5 kB\n").expect_err("missing MemTotal");
    assert_eq!(error, MemoryParseError::MissingField { field: "MemTotal" });
    assert_eq!(error.message(), "missing MemTotal in /proc/meminfo");

    let error = parse_meminfo("MemTotal:\n").expect_err("missing value");
    assert_eq!(error, MemoryParseError::MissingValue { field: "MemTotal" });
    assert_eq!(error.message(), "missing MemTotal value in /proc/meminfo");
}

#[test]
fn meminfo_parser_keeps_the_last_value_of_a_repeated_field() {
    let sample = parse_meminfo("MemTotal: 1 kB\nMemAvailable: 2 kB\nMemTotal: 3 kB\n")
        .expect("valid meminfo");

    assert_eq!(
        sample,
        MemorySample {
            total_kib: 3,
            available_kib: 2
        }
    );
}

#[test]
fn memory_sample_with_zero_total_is_rejected() {
    let error = check_memory_sample(&MemorySample {
        total_kib: 0,
        available_kib: 0,
    })
    .expect_err("zero total");

    assert_eq!(error, MemoryPressureError::ZeroTotalMemory);
    assert_eq!(error.message(), "MemTotal must be greater than zero");
    assert!(check_memory_sample(&MemorySample {
        total_kib: 1,
        available_kib: 0
    })
    .is_ok());
}

#[test]
fn proc_net_dev_parser_reports_missing_and_invalid_counters() {
    let error = parse_proc_net_dev("eth0: 1 2 3\n").expect_err("missing transmit counter");
    assert_eq!(error, NetworkParseError::MissingCounter { line: 1 });
    assert_eq!(error.message(), "missing network counter on line 1");

    let error = parse_proc_net_dev("\neth0: x 2 3 4 5 6 7 8 9\n").expect_err("invalid counter");
    assert_eq!(error.message(), "invalid network counter 'x' on line 2");
}

#[test]
fn proc_diskstats_parser_reports_invalid_counters() {
    let error = parse_proc_diskstats("8 0 sda 1 2 bad 4 5 6 7\n").expect_err("invalid counter");

    assert_eq!(
        error,
        DiskParseError::InvalidCounter {
            line: 1,
            value: "bad".to_string()
        }
    );
    assert_eq!(error.message(), "invalid disk counter 'bad' on line 1");
}

#[test]
fn proc_diskstats_parser_recognises_mmc_partitions() {
    let sample = parse_proc_diskstats(
        "179 0 mmcblk0 1 2 10 4 5 6 20\n179 1 mmcblk0p1 1 2 30 4 5 6 40\n179 2 mmcblk0p 1 2 30 4 5 6 40\n",
    )
    .expect("valid diskstats");

    assert_eq!(sample.devices.len(), 1);
    assert_eq!(sample.devices[0].name, "mmcblk0");
}

const MEMINFO_PRESSURE: &str = "\
MemTotal:       1000000 kB
MemAvailable:     50000 kB
";

#[test]
fn memory_sampler_emits_current_pressure_and_trace_event() {
    let mut sampler = MemorySampler;

    let sample = sampler
        .observe_meminfo(MEMINFO_PRESSURE)
        .expect("valid pressure sample");

    assert_eq!(
        sample,
        MemorySample {
            total_kib: 1_000_000,
            available_kib: 50_000,
        }
    );
}

#[test]
fn memory_sampler_rejects_unparsable_and_zero_total_readings() {
    let mut sampler = MemorySampler;

    let error = sampler
        .observe_meminfo("MemTotal: nope kB\nMemAvailable: 1 kB\n")
        .expect_err("invalid total");
    assert_eq!(error.message(), "invalid MemTotal value 'nope' in /proc/meminfo");

    let error = sampler
        .observe_meminfo("MemTotal: 0 kB\nMemAvailable: 0 kB\n")
        .expect_err("zero total");
    assert_eq!(error, MemorySamplerError::Pressure(MemoryPressureError::ZeroTotalMemory));
    assert_eq!(error.message(), "MemTotal must be greater than zero");
    assert_eq!(
        MemorySamplerError::Io("No such file or directory".to_owned()).message(),
        "failed to read /proc/meminfo: No such file or directory"
    );
}

#[test]
fn network_sampler_primes_then_emits_flow_and_trace_event() {
    let mut sampler = NetworkSampler::default();
    let mut traces = TraceCollector::enabled();

    let reading = sampler
        .observe_proc_net_dev(PROC_NET_DEV_PREVIOUS, &mut traces)
        .expect("first sample parses");

    assert_eq!(reading, NetworkReading::Primed { interface_count: 2 });

    let reading = sampler
        .observe_proc_net_dev(PROC_NET_DEV_CURRENT, &mut traces)
        .expect("second sample parses");

    assert_eq!(
        reading,
        NetworkReading::Compared(Some(NetworkByteDeltas {
            download: 2_000_000,
            upload: 1_100_000,
        }))
    );
    let events = traces.snapshot();
    assert_eq!(events.len(), 1);
    assert_eq!(events[0].target, "metrics.network");
    assert_eq!(events[0].message, "primed with 2 interfaces");
}

#[test]
fn network_sampler_keeps_its_reading_when_a_sample_does_not_parse() {
    let mut sampler = NetworkSampler::new();
    let mut traces = TraceCollector::enabled();
    sampler
        .observe_proc_net_dev(PROC_NET_DEV_PREVIOUS, &mut traces)
        .expect("first sample parses");

    let error = sampler
        .observe_proc_net_dev("eth0: 1 2 3\n", &mut traces)
        .expect_err("short line");
    assert!(matches!(error, NetworkSamplerError::Parse(NetworkParseError::MissingCounter { line: 1 })));

    let reading = sampler
        .observe_proc_net_dev(PROC_NET_DEV_PREVIOUS, &mut traces)
        .expect("same sample again");
    assert_eq!(
        reading,
        NetworkReading::Compared(Some(NetworkByteDeltas { download: 0, upload: 0 }))
    );
    assert_eq!(traces.snapshot().len(), 1);
}

#[test]
fn disk_sampler_primes_then_emits_activity_and_trace_event() {
    let mut sampler = DiskSampler::default();
    let mut traces = TraceCollector::enabled();

    let reading = sampler
        .observe_proc_diskstats(PROC_DISKSTATS_PREVIOUS, &mut traces)
        .expect("first sample parses");

    assert_eq!(reading, DiskReading::Primed { device_count: 2 });

    let reading = sampler
        .observe_proc_diskstats(PROC_DISKSTATS_CURRENT, &mut traces)
        .expect("second sample parses");

    assert_eq!(
        reading,
        DiskReading::Compared(Some(DiskSectorDeltas {
            read: 4_096,
            written: 2_048,
        }))
    );
    let events = traces.snapshot();
    assert_eq!(events.len(), 1);
    assert_eq!(events[0].target, "metrics.disk");
    assert_eq!(events[0].message, "primed with 2 devices");
}

#[test]
fn disk_sampler_compares_each_reading_with_the_one_before() {
    let mut sampler = DiskSampler::new();
    let mut traces = TraceCollector::disabled();
    sampler
        .observe_proc_diskstats(PROC_DISKSTATS_CURRENT, &mut traces)
        .expect("first sample parses");

    // Counters that went down count as no activity.
    let reading = sampler
        .observe_proc_diskstats(PROC_DISKSTATS_PREVIOUS, &mut traces)
        .expect("second sample parses");
    assert_eq!(
        reading,
        DiskReading::Compared(Some(DiskSectorDeltas { read: 0, written: 0 }))
    );
    assert!(traces.snapshot().is_empty());
    assert_eq!(
        DiskSamplerError::Io("permission denied".to_owned()).message(),
        "failed to read /proc/diskstats: permission denied"
    );
}

#[test]
fn cpu_sampler_stores_first_sample_without_emitting_usage() {
    let mut sampler = CpuSampler::default();
    let mut traces = TraceCollector::enabled();

    let reading = sampler
        .observe_proc_stat(PROC_STAT_PREVIOUS, &mut traces)
        .expect("first sample parses");

    assert_eq!(reading, CpuReading::Primed { core_count: 2 });
    assert!(traces
        .snapshot()
        .iter()
        .any(|event| event.message.contains("primed with 2 cores")));
}

#[test]
fn cpu_sampler_emits_usage_after_second_sample() {
    let mut sampler = CpuSampler::default();
    let mut traces = TraceCollector::enabled();

    sampler
        .observe_proc_stat(PROC_STAT_PREVIOUS, &mut traces)
        .expect("first sample parses");
    let reading = sampler
        .observe_proc_stat(PROC_STAT_CURRENT, &mut traces)
        .expect("second sample parses");

    // Busy over total ticks: 20 of 50 (0.40) and 30 of 60 (0.50).
    assert_eq!(
        reading,
        CpuReading::Compared(Some(vec![
            CpuCoreDelta { busy: 20, total: 50 },
            CpuCoreDelta { busy: 30, total: 60 },
        ]))
    );
    assert!(traces
        .snapshot()
        .iter()
        .any(|event| event.target == "metrics.cpu" && event.message.contains("sampled usage for 2 cores")));
}

#[test]
fn cpu_sampler_keeps_its_reading_when_the_core_count_changes() {
    let mut sampler = CpuSampler::new();
    let mut traces = TraceCollector::enabled();
    sampler
        .observe_proc_stat(PROC_STAT_PREVIOUS, &mut traces)
        .expect("first sample parses");

    let error = sampler
        .observe_proc_stat("cpu0 1 0 1 1 0 0 0 0\n", &mut traces)
        .expect_err("one core only");
    assert_eq!(
        error,
        CpuSamplerError::Usage(CpuUsageError::CoreCountChanged {
            previous: 2,
            current: 1
        })
    );
    assert_eq!(
        error.message(),
        "CPU sample core count changed: previous 2, current 1"
    );

    let reading = sampler
        .observe_proc_stat(PROC_STAT_PREVIOUS, &mut traces)
        .expect("same sample again");
    assert_eq!(
        reading,
        CpuReading::Compared(Some(vec![
            CpuCoreDelta { busy: 0, total: 0 },
            CpuCoreDelta { busy: 0, total: 0 },
        ]))
    );
    assert_eq!(traces.snapshot().len(), 2);
}

#[test]
fn cpu_sampler_reports_totals_that_overflow() {
    let huge = "cpu0 18446744073709551615 1 0 0 0 0 0 0\n";
    let sample = parse_proc_stat(huge).expect("counters fit one by one");
    assert!(!cpu_totals_fit(&sample));

    let mut sampler = CpuSampler::new();
    let mut traces = TraceCollector::disabled();
    sampler.observe_proc_stat(huge, &mut traces).expect("primes");
    let reading = sampler
        .observe_proc_stat("cpu0 1 0 0 0 0 0 0 0\n", &mut traces)
        .expect("parses");
    assert_eq!(reading, CpuReading::Compared(None));
    assert_eq!(
        CpuSamplerError::Io("gone".to_owned()).message(),
        "failed to read /proc/stat: gone"
    );
}
