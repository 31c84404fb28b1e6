use gpuf_c::client::{
    device_display_name, heartbeat_applies, task_result, ClientConfig, ClientStatus, TaskType,
};
use gpuf_c::gguf::{
    validate_file_format, validate_gguf_file, validate_gguf_format, FileFormat, GgufError,
};
use gpuf_c::memory_pool::{
    allocate_from_pool, cleanup_memory_pool, init_memory_pool, reset_pool, MemoryPool,
    MEMORY_POOL_SIZE,
};
use gpuf_c::model_status::ModelStatusInfo;
use gpuf_c::system_usage::{
    cpu_usage_from_proc_stat, disk_usage_percent, memory_usage_from_meminfo,
    network_bytes_from_proc_dev, network_increment, network_bytes_checked, meminfo_values,
    cpu_times_from_proc_stat, NetworkBaseline,
};

fn header(version: u32, tensors: u64, kvs: u64) -> Vec<u8> {
    let mut d = b"GGUF".to_vec();
    d.extend_from_slice(&version.to_le_bytes());
    d.extend_from_slice(&tensors.to_le_bytes());
    d.extend_from_slice(&kvs.to_le_bytes());
    d
}

fn key(d: &mut Vec<u8>, k: &str, t: u32) {
    d.extend_from_slice(&(k.len() as u64).to_le_bytes());
    d.extend_from_slice(k.as_bytes());
    d.extend_from_slice(&t.to_le_bytes());
}

fn string_kv(d: &mut Vec<u8>, k: &str, v: &str) {
    key(d, k, 8);
    d.extend_from_slice(&(v.len() as u64).to_le_bytes());
    d.extend_from_slice(v.as_bytes());
}

fn lines(text: &str) -> Vec<String> {
    text.lines().map(|l| l.to_string()).collect()
}

#[test]
fn model_status_transitions() {
    let mut s = ModelStatusInfo::new();
    assert_eq!(s.loading_status, "Not initialized");
    assert!(!s.is_loaded && s.current_model.is_none() && s.error_message.is_none());
    s.set_loading("/m/a.gguf");
    assert_eq!(s.current_model.as_deref(), Some("/m/a.gguf"));
    assert_eq!(s.loading_status, "Loading...");
    assert!(!s.is_loaded);
    s.set_loaded("/m/a.gguf");
    assert_eq!(s.loading_status, "Loaded");
    assert!(s.is_loaded);
    s.set_error("out of memory");
    assert_eq!(s.loading_status, "Error");
    assert!(!s.is_loaded);
    assert_eq!(s.error_message.as_deref(), Some("out of memory"));
    assert_eq!(s.current_model.as_deref(), Some("/m/a.gguf"));
    s.set_loading("/m/b.gguf");
    assert!(s.error_message.is_none());
    s.clear();
    assert_eq!(s.loading_status, "Not initialized");
    assert!(s.current_model.is_none());
}

#[test]
fn memory_pool_bump_allocation() {
    let mut pool = MemoryPool::new();
    assert_eq!(allocate_from_pool(&mut pool, 16, 8), None);
    assert!(!init_memory_pool(&mut pool, false));
    assert!(!pool.initialized);
    assert!(init_memory_pool(&mut pool, true));
    assert_eq!(pool.size, MEMORY_POOL_SIZE);
    assert!(init_memory_pool(&mut pool, false));
    assert_eq!(allocate_from_pool(&mut pool, 10, 8), Some(0));
    assert_eq!(allocate_from_pool(&mut pool, 4, 16), Some(16));
    assert_eq!(pool.used, 20);
    assert_eq!(allocate_from_pool(&mut pool, MEMORY_POOL_SIZE, 1), None);
    assert_eq!(pool.used, 20);
    assert_eq!(allocate_from_pool(&mut pool, 1, 1), Some(20));
    reset_pool(&mut pool);
    assert_eq!(pool.used, 0);
    assert_eq!(allocate_from_pool(&mut pool, MEMORY_POOL_SIZE, 4096), Some(0));
    assert!(cleanup_memory_pool(&mut pool));
    assert!(!cleanup_memory_pool(&mut pool));
    assert_eq!(allocate_from_pool(&mut pool, 1, 1), None);
}

#[test]
fn client_config_defaults() {
    let c = ClientConfig::default();
    assert_eq!(c.server_addr, "127.0.0.1");
    assert_eq!(c.control_port, 17000);
    assert_eq!(c.proxy_port, 17001);
    assert_eq!(c.client_id.len(), 36);
    assert!(c.device_name.is_none());
    assert!(c.auto_register && c.enable_monitoring);
    assert_eq!(c.heartbeat_interval_secs, 30);
    assert_ne!(ClientConfig::default().client_id, c.client_id);
}

#[test]
fn device_names() {
    let mut c = ClientConfig::default();
    c.client_id = "0123456789abcdef".to_string();
    assert_eq!(device_display_name(&c), "Device-01234567");
    c.client_id = "ééééé".to_string();
    assert_eq!(device_display_name(&c), "Device-éééé");
    c.device_name = Some("Pixel".to_string());
    assert_eq!(device_display_name(&c), "Pixel");
}

#[test]
fn heartbeat_only_when_connected() {
    assert!(heartbeat_applies(&ClientStatus::Connected));
    assert!(heartbeat_applies(&ClientStatus::Registered));
    assert!(!heartbeat_applies(&ClientStatus::Connecting));
    assert!(!heartbeat_applies(&ClientStatus::Disconnected));
    assert!(!heartbeat_applies(&ClientStatus::Error("x".to_string())));
}

#[test]
fn task_results_by_kind() {
    let r = task_result("t1".to_string(), TaskType::Inference);
    assert_eq!((r.task_id.as_str(), r.success, r.message.as_str(), r.execution_time_ms),
        ("t1", true, "Inference completed successfully", 100));
    let r = task_result("t2".to_string(), TaskType::Training);
    assert_eq!((r.message.as_str(), r.execution_time_ms), ("Training completed successfully", 5000));
    let r = task_result("t3".to_string(), TaskType::Validation);
    assert_eq!((r.message.as_str(), r.execution_time_ms), ("Validation completed successfully", 200));
}

#[test]
fn gguf_file_with_two_pairs() {
    let mut d = header(3, 5, 2);
    string_kv(&mut d, "general.name", "tiny");
    key(&mut d, "block_cnt", 4);
    d.extend_from_slice(&12u64.to_le_bytes());
    let s = validate_gguf_file(&d).unwrap();
    assert_eq!((s.version, s.tensor_count, s.kv_count), (3, 5, 2));
    assert!(s.usual_version);
    assert_eq!(s.more_kvs, 0);
    assert_eq!(s.entries.len(), 2);
    assert_eq!(s.entries[0].key, "general.name");
    assert_eq!(s.entries[0].value_type, 8);
    assert_eq!(s.entries[0].shown_value.as_deref(), Some("tiny"));
    assert_eq!(s.entries[1].key, "block_cnt");
    assert_eq!(s.entries[1].value_type, 4);
    assert!(s.entries[1].shown_value.is_none());
}

#[test]
fn gguf_file_reads_ten_pairs_at_most() {
    let mut d = header(7, 1, 12);
    for i in 0..10 {
        key(&mut d, &format!("k{i}"), 6);
        d.push(1);
    }
    let s = validate_gguf_file(&d).unwrap();
    assert_eq!(s.entries.len(), 10);
    assert_eq!(s.more_kvs, 2);
    assert!(!s.usual_version);
}

#[test]
fn gguf_file_errors_each_have_an_input() {
    assert_eq!(validate_gguf_file(b"GGU").err(), Some(GgufError::Truncated));
    assert_eq!(validate_gguf_file(b"GGML0000").err(), Some(GgufError::BadMagic));
    assert_eq!(validate_gguf_file(&header(3, 1, 1)[..20]).err(), Some(GgufError::Truncated));
    assert_eq!(validate_gguf_file(&header(3, 0, 1)).err(), Some(GgufError::ZeroTensors));
    assert_eq!(validate_gguf_file(&header(3, 1, 0)).err(), Some(GgufError::ZeroKvs));
    assert_eq!(validate_gguf_file(&header(3, 1, 1)).err(), Some(GgufError::Truncated));
    let mut long_key = header(3, 1, 1);
    long_key.extend_from_slice(&1025u64.to_le_bytes());
    assert_eq!(validate_gguf_file(&long_key).err(), Some(GgufError::KeyTooLong(1025)));
    let mut big = header(3, 1, 1);
    key(&mut big, "general.name", 7);
    big.extend_from_slice(&1_000_001u64.to_le_bytes());
    assert_eq!(validate_gguf_file(&big).err(), Some(GgufError::ValueTooLarge(1_000_001)));
    let mut unknown = header(3, 1, 1);
    key(&mut unknown, "x", 9);
    assert_eq!(validate_gguf_file(&unknown).err(), Some(GgufError::UnknownType(9)));
    let mut short_value = header(3, 1, 1);
    key(&mut short_value, "x", 5);
    short_value.extend_from_slice(&[0, 0, 0]);
    assert_eq!(validate_gguf_file(&short_value).err(), Some(GgufError::Truncated));
}

#[test]
fn gguf_header_check_after_download() {
    assert_eq!(validate_gguf_format(&header(2, 3, 4)), Ok((2, 3, 4)));
    assert_eq!(validate_gguf_format(&header(4, 3, 4)), Err(GgufError::UnsupportedVersion(4)));
    assert_eq!(validate_gguf_format(&header(0, 3, 4)), Err(GgufError::UnsupportedVersion(0)));
    assert_eq!(validate_gguf_format(&header(1, 0, 4)), Err(GgufError::ZeroTensors));
    assert_eq!(validate_gguf_format(&header(1, 3, 0)), Err(GgufError::ZeroKvs));
    assert_eq!(validate_gguf_format(&header(1, 3, 4)[..12]), Err(GgufError::Truncated));
    assert_eq!(validate_gguf_format(b"PK\x03\x04"), Err(GgufError::BadMagic));
}

#[test]
fn downloaded_file_kinds() {
    assert_eq!(validate_file_format(b""), Err(GgufError::Empty));
    assert_eq!(validate_file_format(b"PK\x03"), Err(GgufError::Truncated));
    assert_eq!(validate_file_format(&header(3, 1, 1)), Ok(FileFormat::Gguf(3, 1, 1)));
    assert_eq!(validate_file_format(&header(9, 1, 1)), Err(GgufError::UnsupportedVersion(9)));
    assert_eq!(validate_file_format(b"PK\x03\x04rest"), Ok(FileFormat::Zip));
    assert_eq!(validate_file_format(b"\x89PNG\r\n\x1a\n"), Ok(FileFormat::Png));
    assert_eq!(validate_file_format(b"<?xml version"), Ok(FileFormat::Html));
    assert_eq!(validate_file_format(b"<html><body>"), Ok(FileFormat::Html));
    assert_eq!(validate_file_format(b"%PDF-1.7\n"), Ok(FileFormat::Pdf));
    assert_eq!(validate_file_format(b"\x7fELF\x02\x01\x01\x00"), Ok(FileFormat::Unknown(0x7f, b'E', b'L', b'F')));
}

#[test]
fn cpu_usage_from_stat_lines() {
    let stat = lines("cpu  100 0 100 700 100 0 0 0 0 0\ncpu0 1 2 3 4 5 6 7\nintr 5");
    assert_eq!(cpu_usage_from_proc_stat(&stat), 30);
    assert_eq!(cpu_usage_from_proc_stat(&lines("intr 5")), 25);
    assert_eq!(cpu_usage_from_proc_stat(&lines("cpu  1 2 3")), 25);
    assert_eq!(cpu_usage_from_proc_stat(&lines("cpu  0 0 0 0 0 0 0")), 25);
    assert_eq!(cpu_usage_from_proc_stat(&lines("cpu  x 50 x 50 x x x")), 25);
    assert_eq!(cpu_usage_from_proc_stat(&lines("cpu  x 10 20 30 40 x x")), 60);
}

#[test]
fn memory_usage_from_meminfo_lines() {
    let info = lines("MemTotal:  8000 kB\nMemFree: 100 kB\nMemAvailable:  2000 kB\n");
    assert_eq!(memory_usage_from_meminfo(&info), 75);
    assert_eq!(memory_usage_from_meminfo(&lines("MemTotal: 8000 kB")), 45);
    assert_eq!(memory_usage_from_meminfo(&lines("MemAvailable: 1 kB\nMemTotal: x kB")), 45);
    assert_eq!(memory_usage_from_meminfo(&[]), 45);
}

#[test]
fn network_counters_from_dev_lines() {
    let dev = lines(
        "Inter-|   Receive                                                |  Transmit\n \
         face |bytes    packets errs drop fifo frame compressed multicast|bytes    packets errs drop fifo colls carrier compressed\n \
         lo: 500 5 0 0 0 0 0 0 500 5 0 0 0 0 0 0\n \
         wlan0: 1000 10 0 0 0 0 0 0 2000 20 0 0 0 0 0 0\n \
         docker0: 7 1 0 0 0 0 0 0 7 1 0 0 0 0 0 0\n \
         rmnet0: 30 1 0 0 0 0 0 0 40 1 0 0 0 0 0 0\n",
    );
    assert_eq!(network_bytes_from_proc_dev(&dev), (1030, 2040));
    assert_eq!(network_increment((1030, 2040), None), (0, 0));
    assert_eq!(network_increment((1030, 2040), Some((1000, 2000))), (30, 40));
    assert_eq!(network_increment((5, 2040), Some((1000, 2000))), (0, 40));
}

#[test]
fn network_counters_overflow_is_refused() {
    let max = u64::MAX;
    let dev = lines(&format!(
        "eth0: {max} 1 0 0 0 0 0 0 1 1 0 0 0 0 0 0\n eth1: 1 1 0 0 0 0 0 0 1 1 0 0 0 0 0 0\n"
    ));
    assert_eq!(network_bytes_checked(&dev), None);
    let one = lines("eth0: 5 1 0 0 0 0 0 0 6 1 0 0 0 0 0 0\n");
    assert_eq!(network_bytes_checked(&one), Some((5, 6)));
}

#[test]
fn network_baseline_advances_with_every_reading() {
    let mut b = NetworkBaseline::new();
    assert_eq!(b.update((100, 200)), (0, 0));
    assert_eq!(b.update((150, 260)), (50, 60));
    assert_eq!(b.update((170, 260)), (20, 0));
    assert_eq!(b.update((10, 300)), (0, 40));
    assert_eq!(b.last, Some((10, 300)));
}

#[test]
fn meminfo_and_cpu_readings() {
    let info = lines("MemTotal:  8000 kB\nMemAvailable:  2000 kB\n");
    assert_eq!(meminfo_values(&info), (8000, 2000));
    assert_eq!(meminfo_values(&[]), (0, 0));
    let stat = lines("cpu  10 0 10 80 0 0 0 0\ncpu0 1 2 3 4 5 6 7\n");
    assert_eq!(cpu_times_from_proc_stat(&stat), Some(vec![10, 0, 10, 80, 0, 0, 0]));
    assert_eq!(cpu_times_from_proc_stat(&lines("cpu 1 2 3")), None);
}

#[test]
fn disk_usage_from_blocks() {
    assert_eq!(disk_usage_percent(1000, 250), Some(75));
    assert_eq!(disk_usage_percent(3, 2), Some(33));
    assert_eq!(disk_usage_percent(0, 0), None);
}
