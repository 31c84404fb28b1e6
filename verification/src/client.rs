use crate::filter;
use crate::text_wrappers::{str_chars, string_push};
use vstd::prelude::*;

verus! {

/// Where the client stands with the server.
#[derive(Debug, Clone)]
pub enum ClientStatus {
    Disconnected,
    Connecting,
    Connected,
    Registered,
    Error(String),
}

/// What the client reports about its device.
#[derive(Debug, Clone)]
pub struct DeviceInfo {
    pub device_id: String,
    pub name: String,
    pub os_type: String,
    pub cpu_info: String,
    pub memory_gb: u32,
    pub gpu_info: String,
    pub total_tflops: u32,
    pub last_seen: String,
    pub status: String,
}

/// How the client reaches the server and how it behaves.
#[derive(Debug, Clone)]
pub struct ClientConfig {
    pub server_addr: String,
    pub control_port: u16,
    pub proxy_port: u16,
    pub client_id: String,
    pub device_name: Option<String>,
    pub auto_register: bool,
    pub heartbeat_interval_secs: u64,
    pub enable_monitoring: bool,
}

/// The kinds of work the server can hand out.
#[derive(Debug, Clone, Copy, PartialEq, Eq, Structural)]
pub enum TaskType {
    Inference,
    Training,
    Validation,
}

/// A fresh random client id in the hyphenated form of a UUID.
///
/// Trusted: calls `uuid::Uuid::new_v4` and formats it with `to_string`,
/// which writes the 36 ASCII characters of the lower-case hyphenated form.
/// The value is random; only its shape is claimed: hyphens at positions
/// 8, 13, 18 and 23 and lower-case hex digits elsewhere.
#[verifier::external_body]
fn new_client_id() -> (r: String)
    ensures
        r@.len() == 36,
        forall|i: int| 0 <= i < r@.len() ==> (r@[i] as u32) < 0x80,
        forall|i: int|
            0 <= i < 36 ==> (if i == 8 || i == 13 || i == 18 || i == 23 {
                #[trigger] r@[i] == '-'
            } else {
                ('0' <= r@[i] <= '9') || ('a' <= r@[i] <= 'f')
            }),
{
    uuid::Uuid::new_v4().to_string()
}

impl Default for ClientConfig {
    /// Local server on the default ports, a fresh random client id, and
    /// registration, monitoring and a 30 s heartbeat switched on.
    fn default() -> (r: Self)
        ensures
            r.server_addr@ == "127.0.0.1"@,
            r.control_port == 17000,
            r.proxy_port == 17001,
            r.client_id@.len() == 36,
            forall|i: int| 0 <= i < r.client_id@.len() ==> (r.client_id@[i] as u32) < 0x80,
            r.device_name is None,
            r.auto_register,
            r.heartbeat_interval_secs == 30,
            r.enable_monitoring,
    {
        ClientConfig {
            server_addr: "127.0.0.1".to_owned(),
            control_port: 17000,
            proxy_port: 17001,
            client_id: new_client_id(),
            device_name: None,
            auto_register: true,
            heartbeat_interval_secs: 30,
            enable_monitoring: true,
        }
    }
}

/// Whether the periodic heartbeat does its work in this state: only a
/// connected or registered client sends one.
pub fn heartbeat_applies(status: &ClientStatus) -> (r: bool)
    ensures
        r <==> (*status is Connected || *status is Registered),
{
    match status {
        ClientStatus::Connected | ClientStatus::Registered => true,
        _ => false,
    }
}

/// The number of characters of `id` that make up its first 8 UTF-8 bytes,
/// where such a prefix exists.
pub open spec fn byte_prefix_chars(id: Seq<char>, bytes: nat) -> Option<nat> {
    if exists|k: nat| k <= id.len() && filter::utf8_len(id.take(k as int)) == bytes {
        Some(choose|k: nat| k <= id.len() && filter::utf8_len(id.take(k as int)) == bytes)
    } else {
        None
    }
}

/// The name under which the device shows: the configured name, or
/// `Device-` and the first 8 bytes of the client id.
pub open spec fn display_name_spec(device_name: Option<Seq<char>>, client_id: Seq<char>) -> Seq<char> {
    match device_name {
        Some(n) => n,
        None => "Device-"@ + client_id.take(byte_prefix_chars(client_id, 8)->0 as int),
    }
}

proof fn lemma_utf8_len_take_mono(s: Seq<char>, i: int, j: int)
    requires
        0 <= i <= j <= s.len(),
    ensures
        filter::utf8_len(s.take(i)) <= filter::utf8_len(s.take(j)),
    decreases j - i,
{
    if i < j {
        assert(s.take(j).drop_last() =~= s.take(j - 1));
        lemma_utf8_len_take_mono(s, i, j - 1);
    }
}

proof fn lemma_utf8_len_take_strict(s: Seq<char>, i: int, j: int)
    requires
        0 <= i < j <= s.len(),
    ensures
        filter::utf8_len(s.take(i)) < filter::utf8_len(s.take(j)),
{
    assert(s.take(j).drop_last() =~= s.take(j - 1));
    lemma_utf8_len_take_mono(s, i, j - 1);
}

/// The shown device name. The configured name wins; without one, the
/// first 8 bytes of the client id are used, which must end on a character
/// boundary.
pub fn device_display_name(config: &ClientConfig) -> (r: String)
    requires
        config.device_name is None ==> byte_prefix_chars(config.client_id@, 8) is Some,
    ensures
        r@ == display_name_spec(
            match config.device_name {
                Some(n) => Some(n@),
                None => None,
            },
            config.client_id@,
        ),
{
    match &config.device_name {
        Some(n) => n.clone(),
        None => {
            let id = str_chars(config.client_id.as_str());
            let ghost k0 = byte_prefix_chars(config.client_id@, 8)->0;
            let mut out = "Device-".to_owned();
            proof {
                reveal_strlit("Device-");
            }
            let ghost start = out@;
            let mut bytes: usize = 0;
            let mut i: usize = 0;
            while bytes < 8
                invariant
                    id@ == config.client_id@,
                    k0 <= id@.len(),
                    filter::utf8_len(id@.take(k0 as int)) == 8,
                    i <= k0,
                    bytes == filter::utf8_len(id@.take(i as int)),
                    out@ == start + id@.take(i as int),
                decreases 8 - bytes,
            {
                proof {
                    if i == k0 {
                        assert(false);
                    }
                    lemma_utf8_len_take_strict(id@, i as int, (i + 1) as int);
                    lemma_utf8_len_take_mono(id@, (i + 1) as int, k0 as int);
                    assert(id@.take(i + 1).drop_last() =~= id@.take(i as int));
                }
                let c = id[i];
                let u = c as u32;
                let w: usize = if u < 0x80 {
                    1
                } else if u < 0x800 {
                    2
                } else if u < 0x10000 {
                    3
                } else {
                    4
                };
                bytes = bytes + w;
                string_push(&mut out, c);
                i = i + 1;
                assert(out@ =~= start + id@.take(i as int));
            }
            proof {
                if i < k0 {
                    lemma_utf8_len_take_strict(id@, i as int, k0 as int);
                }
            }
            out
        },
    }
}

/// What a finished task reports.
pub struct TaskResult {
    pub task_id: String,
    pub success: bool,
    pub message: String,
    pub execution_time_ms: u64,
}

/// The report for a finished task of the given kind: always a success,
/// with the kind's message and its nominal run time.
pub fn task_result(task_id: String, task_type: TaskType) -> (r: TaskResult)
    ensures
        r.task_id@ == task_id@,
        r.success,
        task_type is Inference ==> r.message@ == "Inference completed successfully"@
            && r.execution_time_ms == 100,
        task_type is Training ==> r.message@ == "Training completed successfully"@
            && r.execution_time_ms == 5000,
        task_type is Validation ==> r.message@ == "Validation completed successfully"@
            && r.execution_time_ms == 200,
{
    match task_type {
        TaskType::Inference => TaskResult {
            task_id,
            success: true,
            message: "Inference completed successfully".to_owned(),
            execution_time_ms: 100,
        },
        TaskType::Training => TaskResult {
            task_id,
            success: true,
            message: "Training completed successfully".to_owned(),
            execution_time_ms: 5000,
        },
        TaskType::Validation => TaskResult {
            task_id,
            success: true,
            message: "Validation completed successfully".to_owned(),
            execution_time_ms: 200,
        },
    }
}

} // verus!
