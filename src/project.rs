//! Project configuration and the pipeline catalogue of a project.
use vstd::prelude::*;
use crate::backend::{BackendConfig, SerializationFormat};
use crate::json_path::unsigned_digits;
use crate::manager::StateManagerConfig;
use crate::resolver::{digits_value, is_index};
use crate::state::{copy_opt_string, copy_string};
use crate::text::{decimal_text, truncate_string, truncated, u64_text};

verus! {

/// Name, version and description of a project.
#[derive(Debug, Clone)]
pub struct ProjectMetadata {
    pub name: String,
    pub version: String,
    pub description: String,
}

/// Where a stage implementation comes from.
#[derive(Debug, Clone)]
pub struct OxiSource {
    pub version: String,
    pub source: String,
    pub description: String,
}

/// Directories of a project.
#[derive(Debug, Clone)]
pub struct ProjectSettings {
    pub output_dir: String,
    pub pipeline_dir: String,
    pub oxis_dir: String,
}

/// Settings of the file state backend.
#[derive(Debug, Clone)]
pub struct FileStateConfig {
    pub base_path: String,
    pub lock_timeout: String,
    pub backup_enabled: bool,
    pub backup_retention: String,
}

/// State management settings of a project; durations are written like
/// `10s`, `5m`, `1h`, `7d`.
#[derive(Debug, Clone)]
pub struct StateConfig {
    pub backend: String,
    pub file: Option<FileStateConfig>,
    pub heartbeat_interval: String,
    pub checkpoint_interval: String,
    pub cleanup_interval: String,
}

/// The configuration of a project.
#[derive(Debug, Clone)]
pub struct ProjectConfig {
    pub project: ProjectMetadata,
    pub oxis: Vec<(String, OxiSource)>,
    pub settings: ProjectSettings,
    pub environment: Vec<(String, String)>,
    pub state_manager: Option<StateConfig>,
}

/// Lists and describes the pipelines of a project.
#[derive(Debug, Clone)]
pub struct PipelineManager {
    project_config: ProjectConfig,
}

impl ProjectConfig {
    /// The directory that holds the project's pipelines.
    pub fn get_pipeline_directory(&self) -> (r: String)
        ensures
            r@ == self.settings.pipeline_dir@,
    {
        copy_string(&self.settings.pipeline_dir)
    }
}

impl PipelineManager {
    /// A manager for the project configured by `project_config`.
    pub fn new(project_config: ProjectConfig) -> (r: PipelineManager)
        ensures
            r.config() == project_config,
    {
        PipelineManager { project_config }
    }

    /// The project configuration.
    pub closed spec fn config(&self) -> ProjectConfig {
        self.project_config
    }

    /// The directory that holds the project's pipelines.
    pub fn get_pipeline_directory(&self) -> (r: String)
        ensures
            r@ == self.config().settings.pipeline_dir@,
    {
        self.project_config.get_pipeline_directory()
    }

    /// The templates a new pipeline can start from.
    pub fn get_available_templates(&self) -> (r: Vec<&'static str>)
        ensures
            r@.len() == 6,
            r@[0]@ == "basic"@,
            r@[1]@ == "etl"@,
            r@[2]@ == "validation"@,
            r@[3]@ == "batch"@,
            r@[4]@ == "api"@,
            r@[5]@ == "streaming"@,
    {
        let mut v: Vec<&'static str> = Vec::new();
        v.push("basic");
        v.push("etl");
        v.push("validation");
        v.push("batch");
        v.push("api");
        v.push("streaming");
        v
    }
}

/// The defaults of the state settings of a project: file backend, 10 s
/// heartbeats, 30 s checkpoints, hourly cleanup.
pub fn default_state_config() -> (r: StateConfig)
    ensures
        r.backend@ == "file"@,
        r.file is None,
        r.heartbeat_interval@ == "10s"@,
        r.checkpoint_interval@ == "30s"@,
        r.cleanup_interval@ == "1h"@,
{
    StateConfig {
        backend: String::from_str("file"),
        file: None,
        heartbeat_interval: String::from_str("10s"),
        checkpoint_interval: String::from_str("30s"),
        cleanup_interval: String::from_str("1h"),
    }
}

/// The defaults of the file backend settings: `.oxiflow/state`, 30 s lock
/// timeout, backups kept for 7 days.
pub fn default_file_state_config() -> (r: FileStateConfig)
    ensures
        r.base_path@ == ".oxiflow/state"@,
        r.lock_timeout@ == "30s"@,
        r.backup_enabled,
        r.backup_retention@ == "7d"@,
{
    FileStateConfig {
        base_path: String::from_str(".oxiflow/state"),
        lock_timeout: String::from_str("30s"),
        backup_enabled: true,
        backup_retention: String::from_str("7d"),
    }
}

/// `c` is ASCII white space.
pub open spec fn is_space(c: char) -> bool {
    c == ' ' || c == '\t' || c == '\n' || c == '\r' || c == '\x0C' || c == '\x0B'
}

/// The first position at or after `i` that is not white space.
pub open spec fn skip_space(s: Seq<char>, i: int) -> int
    decreases s.len() - i,
{
    if 0 <= i < s.len() && is_space(s[i]) { skip_space(s, i + 1) } else { i }
}

/// The end of `s[..j]` without its trailing white space.
pub open spec fn trim_end_at(s: Seq<char>, j: int) -> int
    decreases j,
{
    if 0 < j <= s.len() && is_space(s[j - 1]) { trim_end_at(s, j - 1) } else { j }
}

/// `s` without leading and trailing ASCII white space.
pub open spec fn trimmed(s: Seq<char>) -> Seq<char> {
    let a = skip_space(s, 0);
    let b = trim_end_at(s, s.len() as int);
    if a < b { s.subrange(a, b) } else { Seq::empty() }
}

/// The milliseconds per unit of a duration's suffix, and the length of the
/// suffix: `ms`, `s`, `m`, `h`, `d`; no suffix means seconds.
pub open spec fn duration_unit(t: Seq<char>) -> (nat, int) {
    if t.len() >= 2 && t[t.len() - 2] == 'm' && t[t.len() - 1] == 's' {
        (1, 2)
    } else if t.len() >= 1 && t[t.len() - 1] == 's' {
        (1000, 1)
    } else if t.len() >= 1 && t[t.len() - 1] == 'm' {
        (60000, 1)
    } else if t.len() >= 1 && t[t.len() - 1] == 'h' {
        (3600000, 1)
    } else if t.len() >= 1 && t[t.len() - 1] == 'd' {
        (86400000, 1)
    } else {
        (1000, 0)
    }
}

/// The number of a duration: an optional `+` and one or more digits,
/// within `u64`.
pub open spec fn duration_number(t: Seq<char>) -> Option<nat> {
    if is_index(unsigned_digits(t)) && digits_value(unsigned_digits(t)) <= u64::MAX {
        Some(digits_value(unsigned_digits(t)))
    } else {
        None
    }
}

/// The milliseconds that a duration such as `30s`, `5m`, `1h`, `7d` or
/// `250ms` spells, if it spells one that fits in `u64`.
pub open spec fn duration_ms(s: Seq<char>) -> Option<u64> {
    let t = trimmed(s);
    let (factor, suffix) = duration_unit(t);
    if t.len() == 0 {
        None
    } else {
        match duration_number(t.subrange(0, t.len() - suffix)) {
            Some(n) => if n * factor <= u64::MAX { Some((n * factor) as u64) } else { None },
            None => None,
        }
    }
}

fn parse_u64(t: &str) -> (r: Option<u64>)
    ensures
        r is Some <==> duration_number(t@) is Some,
        r matches Some(n) ==> n == duration_number(t@)->0,
{
    let n = t.unicode_len();
    let start: usize = if n > 0 && t.get_char(0) == '+' { 1 } else { 0 };
    let ghost d = t@.subrange(start as int, n as int);
    proof {
        assert(d =~= unsigned_digits(t@));
        assert(d.subrange(0, 0) =~= Seq::<char>::empty());
    }
    if n <= start {
        return None;
    }
    let mut acc: u128 = 0;
    let mut over = false;
    let mut k: usize = start;
    while k < n
        invariant
            start <= k <= n,
            n == t@.len(),
            d == t@.subrange(start as int, n as int),
            d == unsigned_digits(t@),
            forall|m: int| 0 <= m < k - start ==> '0' <= #[trigger] d[m] && d[m] <= '9',
            !over ==> acc == digits_value(d.subrange(0, k - start)) && acc <= u64::MAX,
            over ==> digits_value(d.subrange(0, k - start)) > u64::MAX,
        decreases n - k,
    {
        let c = t.get_char(k);
        if !('0' <= c && c <= '9') {
            proof {
                assert(d[k - start] == c);
            }
            return None;
        }
        proof {
            assert(d.subrange(0, k - start + 1).drop_last() =~= d.subrange(0, k - start));
        }
        if !over {
            acc = acc * 10 + (c as u128 - '0' as u128);
            if acc > u64::MAX as u128 {
                over = true;
            }
        }
        k = k + 1;
    }
    proof {
        assert(d.subrange(0, n - start) =~= d);
    }
    if over {
        None
    } else {
        Some(acc as u64)
    }
}

fn space_exec(c: char) -> (r: bool)
    ensures
        r == is_space(c),
{
    c == ' ' || c == '\t' || c == '\n' || c == '\r' || c == '\x0C' || c == '\x0B'
}

/// `s` without trailing ASCII white space.
pub open spec fn trimmed_end(s: Seq<char>) -> Seq<char> {
    s.subrange(0, trim_end_at(s, s.len() as int))
}

proof fn lemma_trim_end_bounds(s: Seq<char>, j: int)
    requires
        0 <= j <= s.len(),
    ensures
        0 <= trim_end_at(s, j) <= j,
    decreases j,
{
    if 0 < j && is_space(s[j - 1]) {
        lemma_trim_end_bounds(s, j - 1);
    }
}

/// `s` without trailing ASCII white space; see `trimmed_end`.
pub fn trim_end_ascii(s: &str) -> (r: &str)
    ensures
        r@ == trimmed_end(s@),
{
    let n = s.unicode_len();
    let mut b: usize = n;
    while b > 0 && space_exec(s.get_char(b - 1))
        invariant
            b <= n,
            n == s@.len(),
            trim_end_at(s@, n as int) == trim_end_at(s@, b as int),
        decreases b,
    {
        b = b - 1;
    }
    s.substring_char(0, b)
}

/// `s` without leading and trailing ASCII white space.
pub fn trim_ascii(s: &str) -> (r: &str)
    ensures
        r@ == trimmed(s@),
{
    let n = s.unicode_len();
    let mut a: usize = 0;
    while a < n && space_exec(s.get_char(a))
        invariant
            a <= n,
            n == s@.len(),
            skip_space(s@, 0) == skip_space(s@, a as int),
        decreases n - a,
    {
        a = a + 1;
    }
    let mut b: usize = n;
    while b > 0 && space_exec(s.get_char(b - 1))
        invariant
            b <= n,
            n == s@.len(),
            trim_end_at(s@, n as int) == trim_end_at(s@, b as int),
        decreases b,
    {
        b = b - 1;
    }
    if a >= b {
        let r = s.substring_char(0, 0);
        assert(r@ =~= trimmed(s@));
        return r;
    }
    s.substring_char(a, b)
}

/// The milliseconds that a duration spells; see `duration_ms`.
pub fn parse_duration(duration_str: &str) -> (r: Option<u64>)
    ensures
        r == duration_ms(duration_str@),
{
    let t = trim_ascii(duration_str);
    let len = t.unicode_len();
    if len == 0 {
        return None;
    }
    let (factor, suffix): (u64, usize) = if len >= 2 && t.get_char(len - 2) == 'm' && t.get_char(len - 1) == 's' {
        (1, 2)
    } else if t.get_char(len - 1) == 's' {
        (1000, 1)
    } else if t.get_char(len - 1) == 'm' {
        (60000, 1)
    } else if t.get_char(len - 1) == 'h' {
        (3600000, 1)
    } else if t.get_char(len - 1) == 'd' {
        (86400000, 1)
    } else {
        (1000, 0)
    };
    let number = t.substring_char(0, len - suffix);
    match parse_u64(number) {
        Some(v) => {
            if (v as u128) * (factor as u128) <= u64::MAX as u128 {
                Some(v * factor)
            } else {
                None
            }
        },
        None => None,
    }
}

impl ProjectConfig {
    /// The state manager configuration of this project on behalf of
    /// `worker_id`: the memory backend when the settings ask for it, else the
    /// file backend (JSON, atomic writes) with the configured path and lock
    /// timeout, defaults filling what is absent or unreadable.
    pub fn create_state_manager_config(&self, worker_id: String) -> (r: StateManagerConfig)
        ensures
            r.worker_id@ == worker_id@,
            r.default_lock_timeout_ms == 30000,
            r.max_retries == 3,
            r.cleanup_interval_hours == 24,
            r.max_state_age_hours == 168,
            (self.state_manager matches Some(c) && c.backend@ == "memory"@) ==> r.backend == (BackendConfig::Memory { persistent: false }),
            !(self.state_manager matches Some(c) && c.backend@ == "memory"@) ==> (r.backend matches BackendConfig::File { format, atomic_writes, .. }
                && format == SerializationFormat::Json && atomic_writes),
            (self.state_manager matches Some(c) && c.backend@ == "file"@ && c.file is Some) ==> (r.backend matches BackendConfig::File { base_path, lock_timeout_ms, .. }
                && base_path@ == self.state_manager->0.file->0.base_path@
                && lock_timeout_ms == match duration_ms(self.state_manager->0.file->0.lock_timeout@) { Some(v) => v, None => 30000 }),
            !(self.state_manager matches Some(c) && (c.backend@ == "memory"@ || (c.backend@ == "file"@ && c.file is Some)))
                ==> (r.backend matches BackendConfig::File { base_path, lock_timeout_ms, .. }
                && base_path@ == ".oxiflow/state"@ && lock_timeout_ms == 30000),
            r.heartbeat_interval_ms == match self.state_manager {
                Some(c) => match duration_ms(c.heartbeat_interval@) { Some(v) => v, None => 10000 },
                None => 10000,
            },
    {
        proof {
            reveal_strlit("memory");
            reveal_strlit("file");
            assert("file"@.len() != "memory"@.len());
            assert("file"@ != "memory"@);
        }
        let mem = String::from_str("memory");
        let file = String::from_str("file");
        let backend = match &self.state_manager {
            Some(c) => if c.backend.eq(&mem) {
                BackendConfig::Memory { persistent: false }
            } else if c.backend.eq(&file) {
                let (base_path, lock_timeout_ms) = match &c.file {
                    Some(f) => (copy_string(&f.base_path), match parse_duration(f.lock_timeout.as_str()) {
                        Some(v) => v,
                        None => 30000,
                    }),
                    None => (String::from_str(".oxiflow/state"), 30000),
                };
                BackendConfig::File { base_path, format: SerializationFormat::Json, atomic_writes: true, lock_timeout_ms }
            } else {
                BackendConfig::File {
                    base_path: String::from_str(".oxiflow/state"),
                    format: SerializationFormat::Json,
                    atomic_writes: true,
                    lock_timeout_ms: 30000,
                }
            },
            None => BackendConfig::File {
                base_path: String::from_str(".oxiflow/state"),
                format: SerializationFormat::Json,
                atomic_writes: true,
                lock_timeout_ms: 30000,
            },
        };
        let heartbeat_interval_ms = match &self.state_manager {
            Some(c) => match parse_duration(c.heartbeat_interval.as_str()) {
                Some(v) => v,
                None => 10000,
            },
            None => 10000,
        };
        StateManagerConfig {
            backend,
            default_lock_timeout_ms: 30000,
            worker_id,
            heartbeat_interval_ms,
            max_retries: 3,
            cleanup_interval_hours: 24,
            max_state_age_hours: 168,
        }
    }
}

/// What the catalogue knows of one pipeline file.
#[derive(Debug, Clone)]
pub struct PipelineMetadata {
    pub name: String,
    pub description: Option<String>,
    pub version: Option<String>,
    pub author: Option<String>,
    pub tags: Option<Vec<String>>,
    pub created: Option<String>,
    pub file_path: String,
    pub step_count: usize,
    pub step_names: Vec<String>,
}

/// The name of the lower-case form of a text.
pub uninterp spec fn lower_of(s: Seq<char>) -> Seq<char>;

/// Relies on `str::to_lowercase`: the lower-case form of the text, which
/// depends on its characters alone.
#[verifier::external_body]
fn lowercase(s: &str) -> (r: String)
    ensures
        r@ == lower_of(s@),
        s@.len() == 0 ==> r@.len() == 0,
{
    s.to_lowercase()
}

/// The views of two optional texts agree.
pub open spec fn same_opt(a: Option<String>, b: Option<String>) -> bool {
    (a is Some <==> b is Some) && (a is Some ==> a->0@ == b->0@)
}

/// `a` is a copy of `b`: every field holds the same text or value.
pub open spec fn same_meta(a: PipelineMetadata, b: PipelineMetadata) -> bool {
    &&& a.name@ == b.name@
    &&& same_opt(a.description, b.description)
    &&& same_opt(a.version, b.version)
    &&& same_opt(a.author, b.author)
    &&& (a.tags is Some <==> b.tags is Some)
    &&& (a.tags is Some ==> a.tags->0@ == b.tags->0@)
    &&& same_opt(a.created, b.created)
    &&& a.file_path@ == b.file_path@
    &&& a.step_count == b.step_count
    &&& a.step_names@ == b.step_names@
}

fn copy_strings(v: &Vec<String>) -> (r: Vec<String>)
    ensures
        r@ == v@,
{
    let mut out: Vec<String> = Vec::new();
    let mut i: usize = 0;
    while i < v.len()
        invariant
            i <= v@.len(),
            out@ == v@.subrange(0, i as int),
        decreases v@.len() - i,
    {
        out.push(v[i].clone());
        i = i + 1;
        assert(out@ =~= v@.subrange(0, i as int));
    }
    assert(out@ =~= v@);
    out
}

impl PipelineMetadata {
    /// A copy of the entry.
    pub fn duplicate(&self) -> (r: PipelineMetadata)
        ensures
            same_meta(r, *self),
    {
        PipelineMetadata {
            name: copy_string(&self.name),
            description: copy_opt_string(&self.description),
            version: copy_opt_string(&self.version),
            author: copy_opt_string(&self.author),
            tags: match &self.tags {
                Some(t) => Some(copy_strings(t)),
                None => None,
            },
            created: copy_opt_string(&self.created),
            file_path: copy_string(&self.file_path),
            step_count: self.step_count,
            step_names: copy_strings(&self.step_names),
        }
    }
}

/// `n` occurs in `h`.
pub open spec fn occurs_in(h: Seq<char>, n: Seq<char>) -> bool {
    exists|i: int| 0 <= i && i + n.len() <= h.len() && #[trigger] h.subrange(i, i + n.len()) == n
}

/// Whether `n` occurs in `h`; used on lower-case forms to match keywords.
pub fn text_occurs(h: &str, n: &str) -> (r: bool)
    ensures
        r == occurs_in(h@, n@),
{
    let hl = h.unicode_len();
    let nl = n.unicode_len();
    if nl > hl {
        proof {
            assert forall|i: int| 0 <= i && i + n@.len() <= h@.len() implies #[trigger] h@.subrange(i, i + n@.len()) != n@ by {}
        }
        return false;
    }
    let mut i: usize = 0;
    while i <= hl - nl
        invariant
            nl <= hl,
            hl == h@.len(),
            nl == n@.len(),
            i <= hl - nl + 1,
            forall|k: int| 0 <= k < i ==> #[trigger] h@.subrange(k, k + nl) != n@,
        decreases hl - nl + 1 - i,
    {
        let mut j: usize = 0;
        let mut same = true;
        while j < nl
            invariant
                j <= nl,
                i + nl <= hl,
                hl == h@.len(),
                nl == n@.len(),
                same <==> forall|m: int| 0 <= m < j ==> h@[i + m] == n@[m],
            decreases nl - j,
        {
            if h.get_char(i + j) != n.get_char(j) {
                same = false;
            }
            j = j + 1;
        }
        if same {
            proof {
                assert(h@.subrange(i as int, i + nl) =~= n@);
            }
            return true;
        }
        proof {
            let m = choose|m: int| 0 <= m < nl && h@[i + m] != n@[m];
            assert(h@.subrange(i as int, i + nl)[m] != n@[m]);
        }
        i = i + 1;
    }
    proof {
        assert forall|k: int| 0 <= k && k + n@.len() <= h@.len() implies #[trigger] h@.subrange(k, k + n@.len()) != n@ by {
            assert(k < i);
        }
    }
    false
}

proof fn lemma_filter_all(s: Seq<PipelineMetadata>, pred: spec_fn(PipelineMetadata) -> bool)
    requires
        forall|m: PipelineMetadata| #[trigger] pred(m),
    ensures
        s.filter(pred) == s,
    decreases s.len(),
{
    reveal(Seq::filter);
    if s.len() > 0 {
        lemma_filter_all(s.drop_last(), pred);
        assert(s.drop_last().push(s.last()) =~= s);
    }
}

/// `m` matches `keyword`: it occurs, in lower case, in the lower-case name
/// or description.
pub open spec fn matches_keyword(m: PipelineMetadata, keyword: Seq<char>) -> bool {
    occurs_in(lower_of(m.name@), lower_of(keyword))
        || (m.description is Some && occurs_in(lower_of(m.description->0@), lower_of(keyword)))
}

impl PipelineManager {
    /// Copies of the entries that match `keyword` (see `matches_keyword`),
    /// in their order.
    pub fn filter_by_keyword(&self, pipelines: &Vec<PipelineMetadata>, keyword: &str) -> (r: Vec<PipelineMetadata>)
        ensures
            r@.len() == pipelines@.filter(|m: PipelineMetadata| matches_keyword(m, keyword@)).len(),
            forall|j: int| 0 <= j < r@.len() ==> same_meta(#[trigger] r@[j], pipelines@.filter(|m: PipelineMetadata| matches_keyword(m, keyword@))[j]),
            keyword@.len() == 0 ==> r@.len() == pipelines@.len() && forall|j: int| 0 <= j < r@.len() ==> same_meta(#[trigger] r@[j], pipelines@[j]),
    {
        let ghost pred = |m: PipelineMetadata| matches_keyword(m, keyword@);
        let kw = lowercase(keyword);
        proof {
            if keyword@.len() == 0 {
                assert(kw@.len() == 0);
                assert forall|m: PipelineMetadata| #[trigger] pred(m) by {
                    let h = lower_of(m.name@);
                    let n = lower_of(keyword@);
                    assert(h.subrange(0int, 0int + n.len()) =~= n);
                    assert(occurs_in(h, n));
                }
                lemma_filter_all(pipelines@, pred);
            }
        }
        let mut out: Vec<PipelineMetadata> = Vec::new();
        let mut i: usize = 0;
        proof {
            reveal(Seq::filter);
            assert(pipelines@.subrange(0, 0) =~= Seq::<PipelineMetadata>::empty());
        }
        while i < pipelines.len()
            invariant
                i <= pipelines@.len(),
                kw@ == lower_of(keyword@),
                pred == |m: PipelineMetadata| matches_keyword(m, keyword@),
                out@.len() == pipelines@.subrange(0, i as int).filter(pred).len(),
                forall|j: int| 0 <= j < out@.len() ==> same_meta(#[trigger] out@[j], pipelines@.subrange(0, i as int).filter(pred)[j]),
            decreases pipelines@.len() - i,
        {
            let p = &pipelines[i];
            let name = lowercase(p.name.as_str());
            let mut hit = text_occurs(name.as_str(), kw.as_str());
            if !hit {
                if let Some(d) = &p.description {
                    let dl = lowercase(d.as_str());
                    hit = text_occurs(dl.as_str(), kw.as_str());
                }
            }
            proof {
                reveal(Seq::filter);
                assert(pipelines@.subrange(0, i + 1).drop_last() =~= pipelines@.subrange(0, i as int));
                assert(hit == pred(pipelines@[i as int]));
            }
            if hit {
                let ghost before = out@;
                out.push(p.duplicate());
                proof {
                    assert forall|j: int| 0 <= j < out@.len() implies same_meta(#[trigger] out@[j], pipelines@.subrange(0, i + 1).filter(pred)[j]) by {
                        if j < before.len() {
                            assert(out@[j] == before[j]);
                        }
                    }
                }
            }
            i = i + 1;
        }
        proof {
            assert(pipelines@.subrange(0, pipelines@.len() as int) =~= pipelines@);
        }
        out
    }
}

/// The comma-separated pieces of `s` from position `i` on.
pub open spec fn pieces_from(s: Seq<char>, i: int) -> Seq<Seq<char>>
    decreases s.len() - i,
{
    if i < 0 || i > s.len() {
        Seq::empty()
    } else {
        let e = crate::resolver::find_char(s, i, ',');
        if e >= s.len() || e < i {
            seq![s.subrange(i, s.len() as int)]
        } else {
            seq![s.subrange(i, e)] + pieces_from(s, e + 1)
        }
    }
}

/// The tags a filter asks for: its comma-separated pieces, trimmed and in
/// lower case.
pub open spec fn wanted_tags(filter: Seq<char>) -> Seq<Seq<char>> {
    pieces_from(filter, 0).map_values(|p: Seq<char>| lower_of(trimmed(p)))
}

/// `m` carries a tag whose lower-case form the filter asks for.
pub open spec fn matches_tags(m: PipelineMetadata, filter: Seq<char>) -> bool {
    m.tags is Some && exists|k: int| 0 <= k < m.tags->0@.len() && wanted_tags(filter).contains(lower_of(#[trigger] m.tags->0@[k]@))
}

proof fn lemma_find_comma(s: Seq<char>, j: int)
    requires
        0 <= j <= s.len(),
    ensures
        j <= crate::resolver::find_char(s, j, ',') <= s.len(),
    decreases s.len() - j,
{
    if j < s.len() && s[j] != ',' {
        lemma_find_comma(s, j + 1);
    }
}

fn wanted_tag_list(filter: &str) -> (r: Vec<String>)
    ensures
        r@.map_values(|x: String| x@) == wanted_tags(filter@),
{
    let n = filter.unicode_len();
    let mut out: Vec<String> = Vec::new();
    let mut i: usize = 0;
    loop
        invariant
            i <= n,
            n == filter@.len(),
            out@.map_values(|x: String| x@) + pieces_from(filter@, i as int).map_values(|p: Seq<char>| lower_of(trimmed(p)))
                == wanted_tags(filter@),
        decreases n - i,
    {
        let mut e = i;
        while e < n && filter.get_char(e) != ','
            invariant
                i <= e <= n,
                n == filter@.len(),
                crate::resolver::find_char(filter@, i as int, ',') == crate::resolver::find_char(filter@, e as int, ','),
            decreases n - e,
        {
            e = e + 1;
        }
        proof {
            lemma_find_comma(filter@, i as int);
        }
        let piece = filter.substring_char(i, e);
        let t = trim_ascii(piece);
        let lowered = lowercase(t);
        let ghost before = out@.map_values(|x: String| x@);
        out.push(lowered);
        proof {
            assert(out@.map_values(|x: String| x@) =~= before.push(lower_of(trimmed(filter@.subrange(i as int, e as int)))));
        }
        if e >= n {
            proof {
                assert(pieces_from(filter@, i as int) == seq![filter@.subrange(i as int, n as int)]);
                assert(before + pieces_from(filter@, i as int).map_values(|p: Seq<char>| lower_of(trimmed(p)))
                    =~= before.push(lower_of(trimmed(filter@.subrange(i as int, e as int)))));
            }
            return out;
        }
        proof {
            let rest = pieces_from(filter@, e + 1).map_values(|p: Seq<char>| lower_of(trimmed(p)));
            assert(pieces_from(filter@, i as int) == seq![filter@.subrange(i as int, e as int)] + pieces_from(filter@, e + 1));
            assert(pieces_from(filter@, i as int).map_values(|p: Seq<char>| lower_of(trimmed(p)))
                =~= seq![lower_of(trimmed(filter@.subrange(i as int, e as int)))] + rest);
            assert(before + (seq![lower_of(trimmed(filter@.subrange(i as int, e as int)))] + rest)
                =~= before.push(lower_of(trimmed(filter@.subrange(i as int, e as int)))) + rest);
        }
        i = e + 1;
    }
}

/// Whether `tag` (in lower case) is among the wanted tags.
pub fn listed_tag(wanted: &Vec<String>, tag: &String) -> (r: bool)
    ensures
        r == wanted@.map_values(|x: String| x@).contains(tag@),
{
    let mut i: usize = 0;
    while i < wanted.len()
        invariant
            i <= wanted@.len(),
            forall|k: int| 0 <= k < i ==> wanted@[k]@ != tag@,
        decreases wanted@.len() - i,
    {
        if wanted[i].eq(tag) {
            proof {
                assert(wanted@.map_values(|x: String| x@)[i as int] == tag@);
            }
            return true;
        }
        i = i + 1;
    }
    proof {
        if wanted@.map_values(|x: String| x@).contains(tag@) {
            let views = wanted@.map_values(|x: String| x@);
            let k = choose|k: int| 0 <= k < views.len() && #[trigger] views[k] == tag@;
            assert(wanted@[k]@ == tag@);
        }
    }
    false
}

fn has_wanted_tag(m: &PipelineMetadata, wanted: &Vec<String>, filter: &str) -> (r: bool)
    requires
        wanted@.map_values(|x: String| x@) == wanted_tags(filter@),
    ensures
        r == matches_tags(*m, filter@),
{
    match &m.tags {
        None => false,
        Some(tags) => {
            let mut k: usize = 0;
            while k < tags.len()
                invariant
                    k <= tags@.len(),
                    m.tags == Some(*tags),
                    wanted@.map_values(|x: String| x@) == wanted_tags(filter@),
                    forall|j: int| 0 <= j < k ==> !wanted_tags(filter@).contains(lower_of(#[trigger] tags@[j]@)),
                decreases tags@.len() - k,
            {
                let low = lowercase(tags[k].as_str());
                if listed_tag(wanted, &low) {
                    proof {
                        assert(0 <= k < m.tags->0@.len() && wanted_tags(filter@).contains(lower_of(m.tags->0@[k as int]@)));
                    }
                    return true;
                }
                k = k + 1;
            }
            false
        },
    }
}

impl PipelineManager {
    /// Copies of the entries that carry a tag of the comma-separated
    /// `filter_tags` (see `matches_tags`), in their order.
    pub fn filter_by_tags(&self, pipelines: &Vec<PipelineMetadata>, filter_tags: &str) -> (r: Vec<PipelineMetadata>)
        ensures
            r@.len() == pipelines@.filter(|m: PipelineMetadata| matches_tags(m, filter_tags@)).len(),
            forall|j: int| 0 <= j < r@.len() ==> same_meta(#[trigger] r@[j], pipelines@.filter(|m: PipelineMetadata| matches_tags(m, filter_tags@))[j]),
    {
        let ghost pred = |m: PipelineMetadata| matches_tags(m, filter_tags@);
        let wanted = wanted_tag_list(filter_tags);
        let mut out: Vec<PipelineMetadata> = Vec::new();
        let mut i: usize = 0;
        proof {
            reveal(Seq::filter);
            assert(pipelines@.subrange(0, 0) =~= Seq::<PipelineMetadata>::empty());
        }
        while i < pipelines.len()
            invariant
                i <= pipelines@.len(),
                wanted@.map_values(|x: String| x@) == wanted_tags(filter_tags@),
                pred == |m: PipelineMetadata| matches_tags(m, filter_tags@),
                out@.len() == pipelines@.subrange(0, i as int).filter(pred).len(),
                forall|j: int| 0 <= j < out@.len() ==> same_meta(#[trigger] out@[j], pipelines@.subrange(0, i as int).filter(pred)[j]),
            decreases pipelines@.len() - i,
        {
            let p = &pipelines[i];
            let hit = has_wanted_tag(p, &wanted, filter_tags);
            proof {
                reveal(Seq::filter);
                assert(pipelines@.subrange(0, i + 1).drop_last() =~= pipelines@.subrange(0, i as int));
                assert(hit == pred(pipelines@[i as int]));
            }
            if hit {
                let ghost before = out@;
                out.push(p.duplicate());
                proof {
                    assert forall|j: int| 0 <= j < out@.len() implies same_meta(#[trigger] out@[j], pipelines@.subrange(0, i + 1).filter(pred)[j]) by {
                        if j < before.len() {
                            assert(out@[j] == before[j]);
                        }
                    }
                }
            }
            i = i + 1;
        }
        proof {
            assert(pipelines@.subrange(0, pipelines@.len() as int) =~= pipelines@);
        }
        out
    }
}

/// `s` padded with spaces to `w` characters (left as it is when longer).
pub open spec fn padded(s: Seq<char>, w: nat) -> Seq<char> {
    if s.len() < w { s + Seq::new((w - s.len()) as nat, |i: int| ' ') } else { s }
}

fn pad_to(out: &mut String, s: &str, w: usize)
    ensures
        final(out)@ == old(out)@ + padded(s@, w as nat),
{
    let ghost start = out@;
    out.append(s);
    let n = s.unicode_len();
    let mut k = n;
    while k < w
        invariant
            n == s@.len(),
            n <= k <= w || (k == n && n >= w),
            out@ == start + s@ + Seq::new((k - n) as nat, |i: int| ' '),
        decreases w - k,
    {
        proof {
            reveal_strlit(" ");
            assert(" "@ =~= seq![' ']);
        }
        out.append(" ");
        k = k + 1;
        assert(out@ =~= start + s@ + Seq::new((k - n) as nat, |i: int| ' '));
    }
    assert(out@ =~= start + padded(s@, w as nat));
}

/// The texts of `xs` joined by `sep`.
pub open spec fn joined(xs: Seq<String>, sep: Seq<char>, n: int) -> Seq<char>
    decreases n,
{
    if n <= 0 || n > xs.len() {
        Seq::empty()
    } else if n == 1 {
        xs[0]@
    } else {
        joined(xs, sep, n - 1) + sep + xs[n - 1]@
    }
}

fn push_joined(out: &mut String, xs: &Vec<String>, sep: &str)
    ensures
        final(out)@ == old(out)@ + joined(xs@, sep@, xs@.len() as int),
{
    let ghost start = out@;
    let mut i: usize = 0;
    while i < xs.len()
        invariant
            i <= xs@.len(),
            out@ == start + joined(xs@, sep@, i as int),
        decreases xs@.len() - i,
    {
        if i > 0 {
            out.append(sep);
        }
        out.append(xs[i].as_str());
        i = i + 1;
        assert(out@ =~= start + joined(xs@, sep@, i as int));
    }
}

/// The heading of a listing of `count` pipelines in `dir`.
pub open spec fn listing_header(dir: Seq<char>, count: nat) -> Seq<char> {
    "📂 Available pipelines in "@ + dir + " ("@ + decimal_text(count) + " total):\n\n"@
}

/// `prefix`, the text and a new line, when there is a text.
pub open spec fn opt_line(prefix: Seq<char>, o: Option<String>) -> Seq<char> {
    match o {
        Some(v) => prefix + v@ + "\n"@,
        None => Seq::empty(),
    }
}

/// The verbose entry of one pipeline.
pub open spec fn verbose_entry(p: PipelineMetadata) -> Seq<char> {
    "📂 Pipeline: "@ + p.name@ + "\n"@ + opt_line("   📝 Description: "@, p.description)
        + opt_line("   👤 Author: "@, p.author) + tags_line(p.tags) + opt_line("   📅 Version: "@, p.version)
        + "   📍 Location: "@ + p.file_path@ + "\n"@ + steps_line(p) + opt_line("   📅 Created: "@, p.created)
}

/// The tags line of a verbose entry, when there are tags.
pub open spec fn tags_line(tags: Option<Vec<String>>) -> Seq<char> {
    match tags {
        Some(t) => "   🏷️  Tags: "@ + joined(t@, ", "@, t@.len() as int) + "\n"@,
        None => Seq::empty(),
    }
}

/// The steps line of a verbose entry: the count, and the names when known.
pub open spec fn steps_line(p: PipelineMetadata) -> Seq<char> {
    if p.step_names@.len() == 0 {
        "   ⚙️  Steps: "@ + decimal_text(p.step_count as nat) + " total\n"@
    } else {
        "   ⚙️  Steps: "@ + decimal_text(p.step_count as nat) + " ("@ + joined(p.step_names@, " → "@, p.step_names@.len() as int)
            + ")\n"@
    }
}

/// The verbose entries of the first `n` pipelines, a blank line between two.
pub open spec fn verbose_body(ps: Seq<PipelineMetadata>, n: int) -> Seq<char>
    decreases n,
{
    if n <= 0 || n > ps.len() {
        Seq::empty()
    } else {
        verbose_body(ps, n - 1) + (if n > 1 { "\n"@ } else { Seq::empty() }) + verbose_entry(ps[n - 1])
    }
}

/// One row of the compact table.
pub open spec fn table_row(p: PipelineMetadata) -> Seq<char> {
    "│ "@ + truncated(p.name@, 19) + " │ "@ + (match p.description {
        Some(d) => truncated(d@, 28),
        None => truncated("No description"@, 28),
    }) + " │ "@ + (match p.version {
        Some(v) => truncated(v@, 7),
        None => truncated("N/A"@, 7),
    }) + " │ "@ + padded(decimal_text(p.step_count as nat) + " steps"@, 9) + " │\n"@
}

/// The rows of the first `n` pipelines.
pub open spec fn table_rows(ps: Seq<PipelineMetadata>, n: int) -> Seq<char>
    decreases n,
{
    if n <= 0 || n > ps.len() { Seq::empty() } else { table_rows(ps, n - 1) + table_row(ps[n - 1]) }
}

/// The frame of the compact table above its rows.
pub open spec fn table_top() -> Seq<char> {
    "┌─────────────────────┬──────────────────────────────┬─────────┬───────────┐\n"@
        + "│ Name                │ Description                  │ Version │ Steps     │\n"@
        + "├─────────────────────┼──────────────────────────────┼─────────┼───────────┤\n"@
}

/// The frame and help below the rows.
pub open spec fn table_bottom() -> Seq<char> {
    "└─────────────────────┴──────────────────────────────┴─────────┴───────────┘\n\n"@
        + "💡 Use 'oxide_flow pipeline info <name>' for detailed information\n"@
        + "🚀 Use 'oxide_flow run <name>' to execute a pipeline\n"@
}

fn push_opt_line(out: &mut String, prefix: &str, o: &Option<String>)
    ensures
        final(out)@ == old(out)@ + opt_line(prefix@, *o),
{
    let ghost start = out@;
    if let Some(v) = o {
        out.append(prefix);
        out.append(v.as_str());
        out.append("\n");
    }
    assert(out@ =~= start + opt_line(prefix@, *o));
}

fn push_tags_line(out: &mut String, tags: &Option<Vec<String>>)
    ensures
        final(out)@ == old(out)@ + tags_line(*tags),
{
    let ghost start = out@;
    if let Some(t) = tags {
        out.append("   🏷️  Tags: ");
        push_joined(out, t, ", ");
        out.append("\n");
    }
    assert(out@ =~= start + tags_line(*tags));
}

fn push_steps_line(out: &mut String, p: &PipelineMetadata)
    ensures
        final(out)@ == old(out)@ + steps_line(*p),
{
    let ghost start = out@;
    let count = u64_text(p.step_count as u64);
    out.append("   ⚙️  Steps: ");
    out.append(count.as_str());
    if p.step_names.len() == 0 {
        out.append(" total\n");
    } else {
        out.append(" (");
        push_joined(out, &p.step_names, " → ");
        out.append(")\n");
    }
    assert(out@ =~= start + steps_line(*p));
}

fn push_verbose_entry(out: &mut String, p: &PipelineMetadata)
    ensures
        final(out)@ == old(out)@ + verbose_entry(*p),
{
    let ghost start = out@;
    out.append("📂 Pipeline: ");
    out.append(p.name.as_str());
    out.append("\n");
    let ghost a = out@;
    push_opt_line(out, "   📝 Description: ", &p.description);
    push_opt_line(out, "   👤 Author: ", &p.author);
    push_tags_line(out, &p.tags);
    push_opt_line(out, "   📅 Version: ", &p.version);
    let ghost b = out@;
    out.append("   📍 Location: ");
    out.append(p.file_path.as_str());
    out.append("\n");
    let ghost c = out@;
    push_steps_line(out, p);
    push_opt_line(out, "   📅 Created: ", &p.created);
    proof {
        assert(a =~= start + "📂 Pipeline: "@ + p.name@ + "\n"@);
        assert(b =~= a + opt_line("   📝 Description: "@, p.description) + opt_line("   👤 Author: "@, p.author)
            + tags_line(p.tags) + opt_line("   📅 Version: "@, p.version));
        assert(c =~= b + "   📍 Location: "@ + p.file_path@ + "\n"@);
        assert(out@ =~= c + steps_line(*p) + opt_line("   📅 Created: "@, p.created));
        assert(out@ =~= start + verbose_entry(*p));
    }
}

fn push_table_row(out: &mut String, p: &PipelineMetadata)
    ensures
        final(out)@ == old(out)@ + table_row(*p),
{
    let ghost start = out@;
    out.append("│ ");
    let name = truncate_string(p.name.as_str(), 19);
    out.append(name.as_str());
    out.append(" │ ");
    let description = match &p.description {
        Some(d) => truncate_string(d.as_str(), 28),
        None => truncate_string("No description", 28),
    };
    out.append(description.as_str());
    out.append(" │ ");
    let version = match &p.version {
        Some(v) => truncate_string(v.as_str(), 7),
        None => truncate_string("N/A", 7),
    };
    out.append(version.as_str());
    out.append(" │ ");
    let mut steps = u64_text(p.step_count as u64);
    steps.append(" steps");
    pad_to(out, steps.as_str(), 9);
    out.append(" │\n");
    assert(out@ =~= start + table_row(*p));
}

impl PipelineManager {
    /// The listing of `pipelines`: a table, or one entry per pipeline when
    /// `verbose`; a short notice when there are none.
    pub fn format_pipeline_table(&self, pipelines: &Vec<PipelineMetadata>, verbose: bool) -> (r: String)
        ensures
            pipelines@.len() == 0 ==> r@ == "No pipelines found."@,
            pipelines@.len() > 0 && verbose ==> r@ == listing_header(self.config().settings.pipeline_dir@, pipelines@.len())
                + verbose_body(pipelines@, pipelines@.len() as int),
            pipelines@.len() > 0 && !verbose ==> r@ == listing_header(self.config().settings.pipeline_dir@, pipelines@.len())
                + table_top() + table_rows(pipelines@, pipelines@.len() as int) + table_bottom(),
    {
        if pipelines.len() == 0 {
            return String::from_str("No pipelines found.");
        }
        let mut out = String::from_str("📂 Available pipelines in ");
        out.append(self.project_config.settings.pipeline_dir.as_str());
        out.append(" (");
        let count = u64_text(pipelines.len() as u64);
        out.append(count.as_str());
        out.append(" total):\n\n");
        let ghost head = out@;
        assert(head =~= listing_header(self.config().settings.pipeline_dir@, pipelines@.len()));
        if verbose {
            let mut i: usize = 0;
            while i < pipelines.len()
                invariant
                    i <= pipelines@.len(),
                    out@ == head + verbose_body(pipelines@, i as int),
                decreases pipelines@.len() - i,
            {
                if i > 0 {
                    out.append("\n");
                }
                push_verbose_entry(&mut out, &pipelines[i]);
                i = i + 1;
                assert(out@ =~= head + verbose_body(pipelines@, i as int));
            }
        } else {
            out.append("┌─────────────────────┬──────────────────────────────┬─────────┬───────────┐\n");
            out.append("│ Name                │ Description                  │ Version │ Steps     │\n");
            out.append("├─────────────────────┼──────────────────────────────┼─────────┼───────────┤\n");
            let ghost top = out@;
            assert(top =~= head + table_top());
            let mut i: usize = 0;
            while i < pipelines.len()
                invariant
                    i <= pipelines@.len(),
                    out@ == top + table_rows(pipelines@, i as int),
                decreases pipelines@.len() - i,
            {
                push_table_row(&mut out, &pipelines[i]);
                i = i + 1;
                assert(out@ =~= top + table_rows(pipelines@, i as int));
            }
            out.append("└─────────────────────┴──────────────────────────────┴─────────┴───────────┘\n\n");
            out.append("💡 Use 'oxide_flow pipeline info <name>' for detailed information\n");
            out.append("🚀 Use 'oxide_flow run <name>' to execute a pipeline\n");
            assert(out@ =~= head + table_top() + table_rows(pipelines@, pipelines@.len() as int) + table_bottom());
        }
        out
    }
}

} // verus!
