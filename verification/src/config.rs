//! The settings of a pipe and of a pipeline.
use crate::time;
use core::time::Duration;
use std::path::PathBuf;
use std::sync::atomic::AtomicBool;
use std::sync::Arc;
use vstd::prelude::*;
use vstd::string::*;

verus! {

/// `std::path::PathBuf`; a path is only carried.
#[verifier::external_type_specification]
#[verifier::external_body]
pub struct ExPathBuf(PathBuf);

/// `Clone::clone` of `PathBuf`: a path that is the same.
pub assume_specification[ <PathBuf as Clone>::clone ](path: &PathBuf) -> (copy: PathBuf)
    ensures
        copy == *path,
;

/// `Clone::clone` of `Duration`: a span that is the same.
pub assume_specification[ <Duration as Clone>::clone ](duration: &Duration) -> (copy: Duration)
    ensures
        copy == *duration,
;

/// The settings of a pipe: its workers, how long each waits for an item before
/// it looks at the cancel flag, and that flag.
#[derive(Clone)]
pub struct PipeConfig {
    pub num_workers: usize,
    pub poll_interval: Duration,
    pub cancel: Arc<AtomicBool>,
}

/// The settings of a pipeline.
#[derive(Debug)]
pub struct PiperConfig {
    pub sample_interval: Duration,
    pub poll_interval: Duration,
    pub global_worker_cap: Option<usize>,
    pub csv_telemetry: Option<CsvTelemetryConfig>,
}

impl Clone for PiperConfig {
    fn clone(&self) -> (copy: Self)
        ensures
            copy == *self,
    {
        PiperConfig {
            sample_interval: self.sample_interval.clone(),
            poll_interval: self.poll_interval.clone(),
            global_worker_cap: self.global_worker_cap,
            csv_telemetry: match &self.csv_telemetry {
                Some(telemetry) => Some(telemetry.clone()),
                None => None,
            },
        }
    }
}

impl Default for PiperConfig {
    fn default() -> (config: Self)
        ensures
            time::duration_nanos(config.sample_interval) == 10_000_000,
            time::duration_nanos(config.poll_interval) == 10_000_000,
            config.global_worker_cap is None,
            config.csv_telemetry is None,
    {
        PiperConfig {
            sample_interval: Duration::from_millis(10),
            poll_interval: Duration::from_millis(10),
            global_worker_cap: None,
            csv_telemetry: None,
        }
    }
}

/// Where telemetry is written, and how often.
#[derive(Debug)]
pub struct CsvTelemetryConfig {
    pub path: PathBuf,
    pub interval: Duration,
}

impl Clone for CsvTelemetryConfig {
    fn clone(&self) -> (copy: Self)
        ensures
            copy == *self,
    {
        CsvTelemetryConfig { path: self.path.clone(), interval: self.interval.clone() }
    }
}

impl CsvTelemetryConfig {
    /// Four rows a second.
    pub fn new(path: PathBuf) -> (config: Self)
        ensures
            config.path == path,
            time::duration_nanos(config.interval) == 250_000_000,
    {
        CsvTelemetryConfig { path, interval: Duration::from_millis(250) }
    }

    pub fn interval(self, interval: Duration) -> (config: Self)
        ensures
            config == (CsvTelemetryConfig { interval, ..self }),
    {
        CsvTelemetryConfig { interval, ..self }
    }
}

/// A path separator stands at this place.
pub open spec fn is_separator(text: Seq<char>, index: int) -> bool {
    0 <= index && index + 1 < text.len() && text[index] == ':' && text[index + 1] == ':'
}

/// `name` is what stands behind the last `::` of `path`. Separators are told off
/// from the right, so of three colons in a row the last two are one.
pub open spec fn is_last_segment(name: Seq<char>, path: Seq<char>) -> bool {
    exists|start: int| #[trigger] is_segment_start(path, start) && name == path.skip(start)
}

/// The last segment of a path begins at `start`.
pub open spec fn is_segment_start(path: Seq<char>, start: int) -> bool {
    &&& 0 <= start <= path.len()
    &&& start > 0 ==> is_separator(path, start - 2)
    &&& forall|i: int| start - 2 < i && i < path.len() ==> !#[trigger] is_separator(path, i)
}

/// The name that a stage goes by when none was given: the last segment of its
/// type's path.
pub fn default_stage_name(type_path: &str) -> (name: String)
    ensures
        is_last_segment(name@, type_path@),
{
    let ghost path = type_path@;
    let count: usize = type_path.unicode_len();
    let mut start: usize = count;
    while start > 0
        invariant_except_break
            start <= count,
            count == path.len(),
            path == type_path@,
            forall|i: int| start - 2 < i && i < path.len() ==> !#[trigger] is_separator(path, i),
        ensures
            start <= count,
            is_segment_start(path, start as int),
        decreases start,
    {
        if start >= 2 && type_path.get_char(start - 1) == ':' && type_path.get_char(start - 2)
            == ':' {
            break;
        }
        start -= 1;
    }
    let mut name = String::new();
    let mut index: usize = start;
    while index < count
        invariant
            start <= index <= count,
            count == path.len(),
            path == type_path@,
            name@ == path.subrange(start as int, index as int),
        decreases count - index,
    {
        name.push(type_path.get_char(index));
        index += 1;
        assert(name@ =~= path.subrange(start as int, index as int));
    }
    assert(name@ =~= path.skip(start as int));
    assert(is_segment_start(path, start as int));
    name
}

/// A stage that was given no name goes by what stands behind the last `::` of its
/// type's path, or by the whole path where there is none.
pub proof fn law_stage_goes_by_the_last_segment(type_path: &str, name: String, i: int)
    requires
        call_ensures(default_stage_name, (type_path,), name),
    ensures
        ({
            let path = type_path@;
            let start = path.len() - name@.len();
            &&& 0 <= start
            &&& path.skip(start) == name@
            &&& start > 0 ==> start >= 2 && path[start - 1] == ':' && path[start - 2] == ':'
            &&& 0 <= i < name@.len() - 1 ==> !(name@[i] == ':' && name@[i + 1] == ':')
            &&& start > 0 && name@.len() > 0 ==> name@[0] != ':'
        }),
{
    let path = type_path@;
    let start = choose|start: int| #[trigger]
        is_segment_start(path, start) && name@ == path.skip(start);
    assert(start == path.len() - name@.len());
    assert(!is_separator(path, start + i) || start + i <= start - 2 || start + i >= path.len());
    assert(!is_separator(path, start - 1) || start - 1 <= start - 2 || start - 1 >= path.len());
    if 0 <= i < name@.len() - 1 {
        assert(name@[i] == path[start + i]);
        assert(name@[i + 1] == path[start + i + 1]);
    }
    if start > 0 && name@.len() > 0 {
        assert(name@[0] == path[start]);
    }
}

/// A pipeline samples and polls every ten milliseconds unless it is told otherwise, and
/// is neither bounded nor recorded.
pub proof fn law_defaults_are_plain(config: PiperConfig)
    requires
        call_ensures(PiperConfig::default, (), config),
    ensures
        time::duration_nanos(config.sample_interval) == 10_000_000,
        time::duration_nanos(config.poll_interval) == 10_000_000,
        config.global_worker_cap is None,
        config.csv_telemetry is None,
{
}

/// Telemetry goes to its path four times a second, and an interval that is set replaces
/// the interval alone.
pub proof fn law_telemetry_is_configured(
    path: PathBuf,
    interval: Duration,
    config: CsvTelemetryConfig,
    set: CsvTelemetryConfig,
)
    requires
        call_ensures(CsvTelemetryConfig::new, (path,), config),
        call_ensures(CsvTelemetryConfig::interval, (config, interval), set),
    ensures
        config.path == path,
        4 * time::duration_nanos(config.interval) == 1_000_000_000,
        set.path == path,
        set.interval == interval,
{
}

} // verus!
