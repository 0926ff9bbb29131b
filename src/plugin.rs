//! The Plugin trait and the built-in plugins: level label, timestamp and
//! stack trace.
use vstd::prelude::*;
use crate::define::{is_digit, level_name, level_to_str, Level};
use crate::encode::{decimal, decimal_bytes, joined, json_string, json_text, push_json_string, Encode};
use crate::record::{field, Record, RecordView};
use vstd::utf8::encode_utf8;

verus! {

/// The Plugin Trait
///
/// A plugin is middleware for records: `pre` runs right after a record is
/// spawned, before the caller's fields; `post` runs after them, before the
/// record is finished. Either may add fields, and either may stop the record
/// by answering `false`.
pub trait Plugin: Send + Sync {
    /// What `pre` may do: the record goes from `before` to `after`, and the
    /// answer is `go_on`. Unless a plugin states it, anything.
    open spec fn pre_spec(&self, before: RecordView, after: RecordView, go_on: bool) -> bool {
        true
    }

    /// What `post` may do, in the same terms.
    open spec fn post_spec(&self, before: RecordView, after: RecordView, go_on: bool) -> bool {
        true
    }

    /// Invoked before the caller's fields are appended to a record.
    fn pre(&self, record: &mut Record) -> (go_on: bool)
        ensures
            self.pre_spec(old(record)@, final(record)@, go_on),
    ;

    /// Invoked after the caller's fields are appended to a record.
    fn post(&self, record: &mut Record) -> (go_on: bool)
        ensures
            self.post_spec(old(record)@, final(record)@, go_on),
    ;
}

/// The positions whose flag in `removed` is unset, in increasing order.
pub open spec fn kept_positions(removed: Seq<bool>) -> Seq<int>
    decreases removed.len(),
{
    if removed.len() == 0 {
        Seq::empty()
    } else if removed.last() {
        kept_positions(removed.drop_last())
    } else {
        kept_positions(removed.drop_last()).push(removed.len() - 1)
    }
}

/// Each kept position is a position of `removed` whose flag is unset.
pub proof fn lemma_kept_positions(removed: Seq<bool>)
    ensures
        forall|k: int|
            0 <= k < kept_positions(removed).len() ==> 0 <= #[trigger] kept_positions(removed)[k]
                < removed.len() && !removed[kept_positions(removed)[k]],
    decreases removed.len(),
{
    if removed.len() > 0 {
        let prev = removed.drop_last();
        lemma_kept_positions(prev);
        assert forall|k: int| 0 <= k < kept_positions(removed).len() implies 0
            <= #[trigger] kept_positions(removed)[k] < removed.len()
            && !removed[kept_positions(removed)[k]] by {
            if k < kept_positions(prev).len() {
                let p = kept_positions(prev)[k];
                assert(kept_positions(removed)[k] == p);
                assert(prev[p] == removed[p]);
            }
        }
    }
}

/// The label of a level: its name for a built-in level, else its decimal text.
pub open spec fn level_label(level: Level) -> Seq<u8> {
    match level_name(level) {
        Some(name) => encode_utf8(name@),
        None => decimal(level as int),
    }
}

/// A level that is not built in is labelled by its decimal text; a built-in
/// one by its name.
pub proof fn lemma_level_label(level: Level)
    ensures
        level_name(level) is None ==> level_label(level) == decimal(level as int),
        level_name(level) matches Some(name) ==> level_label(level) == encode_utf8(name@),
{
}

/// A level as the value of the `level` field: a JSON string of its label.
struct LevelLabel {
    level: Level,
}

impl Encode for LevelLabel {
    closed spec fn encoding(&self) -> Seq<u8> {
        json_string(level_label(self.level))
    }

    fn encode(&self, buf: &mut Vec<u8>) {
        match level_to_str(self.level) {
            Some(name) => push_json_string(buf, name.as_bytes()),
            None => {
                let text = decimal_bytes(self.level as i128);
                push_json_string(buf, text.as_slice());
            },
        }
    }
}

/// Add a level string to a record: `{"level":"info"}`; a level that is not
/// built in is written as its decimal text.
pub struct LevelPlugin;

impl Plugin for LevelPlugin {
    open spec fn pre_spec(&self, before: RecordView, after: RecordView, go_on: bool) -> bool {
        &&& go_on
        &&& after == RecordView {
            bytes: before.bytes + field("level"@, json_string(level_label(before.level))),
            ..before
        }
    }

    open spec fn post_spec(&self, before: RecordView, after: RecordView, go_on: bool) -> bool {
        go_on && after == before
    }

    fn pre(&self, record: &mut Record) -> (go_on: bool) {
        let label = LevelLabel { level: record.level() };
        record.append("level", &label);
        true
    }

    fn post(&self, record: &mut Record) -> (go_on: bool) {
        true
    }
}

/// Sub-second precision of a timestamp.
#[derive(Debug, Clone, Copy, PartialEq, Eq)]
pub enum SecondsFormat {
    /// Whole seconds
    Secs,
    /// Milliseconds
    Millis,
    /// Microseconds
    Micros,
    /// Nanoseconds
    Nanos,
}

/// Number of fraction digits that a precision writes.
pub open spec fn fraction_digits(format: SecondsFormat) -> int {
    match format {
        SecondsFormat::Secs => 0,
        SecondsFormat::Millis => 3,
        SecondsFormat::Micros => 6,
        SecondsFormat::Nanos => 9,
    }
}

/// Every character of `t` in `from..to` is a decimal digit.
pub open spec fn digits_between(t: Seq<char>, from: int, to: int) -> bool {
    forall|i: int| from <= i < to ==> #[trigger] is_digit(t[i])
}

/// `t` is an RFC 3339 timestamp at precision `format`, offset written as
/// `+HH:MM` or `-HH:MM`: a year of four digits (or a sign and at least four
/// digits), `-MM-DD`, `T`, `HH:MM:SS`, a `.` and the fraction digits unless
/// the precision is whole seconds, then the offset. Its length fixes where
/// the year ends.
pub open spec fn rfc3339_text(t: Seq<char>, format: SecondsFormat) -> bool {
    let n = fraction_digits(format);
    let fraction = if n == 0 {
        0
    } else {
        n + 1
    };
    let y = t.len() - (21 + fraction);
    let o = t.len() - 6;
    &&& y >= 4
    &&& (y == 4 && digits_between(t, 0, 4)) || ((t[0] == '+' || t[0] == '-') && digits_between(t, 1, y))
    &&& t[y] == '-' && digits_between(t, y + 1, y + 3)
    &&& t[y + 3] == '-' && digits_between(t, y + 4, y + 6)
    &&& t[y + 6] == 'T' && digits_between(t, y + 7, y + 9)
    &&& t[y + 9] == ':' && digits_between(t, y + 10, y + 12)
    &&& t[y + 12] == ':' && digits_between(t, y + 13, y + 15)
    &&& n > 0 ==> t[y + 15] == '.' && digits_between(t, y + 16, y + 16 + n)
    &&& (t[o] == '+' || t[o] == '-') && digits_between(t, o + 1, o + 3)
    &&& t[o + 3] == ':' && digits_between(t, o + 4, o + 6)
}

/// Relies on chrono::Local::now and chrono::DateTime::to_rfc3339_opts (with
/// `use_z` false): the local time now, as RFC 3339 text at the given
/// precision. Which time it is depends on the clock.
#[verifier::external_body]
fn local_time_text(format: SecondsFormat) -> (r: String)
    ensures
        rfc3339_text(r@, format),
{
    let format = match format {
        SecondsFormat::Secs => chrono::SecondsFormat::Secs,
        SecondsFormat::Millis => chrono::SecondsFormat::Millis,
        SecondsFormat::Micros => chrono::SecondsFormat::Micros,
        SecondsFormat::Nanos => chrono::SecondsFormat::Nanos,
    };
    chrono::Local::now().to_rfc3339_opts(format, false)
}

/// Add an RFC 3339 local timestamp to a record: `{"time":"2024-01-03T11:01:00.123+08:00"}`.
pub struct TimePlugin {
    /// time format
    pub format: SecondsFormat,
}

impl TimePlugin {
    /// Second-level precision
    pub fn from_secs() -> (r: Self)
        ensures
            r.format == SecondsFormat::Secs,
    {
        TimePlugin { format: SecondsFormat::Secs }
    }

    /// Millisecond-level precision
    pub fn from_millis() -> (r: Self)
        ensures
            r.format == SecondsFormat::Millis,
    {
        TimePlugin { format: SecondsFormat::Millis }
    }

    /// Microsecond-level precision
    pub fn from_micros() -> (r: Self)
        ensures
            r.format == SecondsFormat::Micros,
    {
        TimePlugin { format: SecondsFormat::Micros }
    }

    /// Nanosecond-level precision
    pub fn from_nanos() -> (r: Self)
        ensures
            r.format == SecondsFormat::Nanos,
    {
        TimePlugin { format: SecondsFormat::Nanos }
    }
}

impl Plugin for TimePlugin {
    open spec fn pre_spec(&self, before: RecordView, after: RecordView, go_on: bool) -> bool {
        &&& go_on
        &&& exists|time: Seq<char>|
            rfc3339_text(time, self.format) && after == RecordView {
                bytes: before.bytes + field("time"@, #[trigger] json_text(time)),
                ..before
            }
    }

    open spec fn post_spec(&self, before: RecordView, after: RecordView, go_on: bool) -> bool {
        go_on && after == before
    }

    fn pre(&self, record: &mut Record) -> (go_on: bool) {
        let now = local_time_text(self.format);
        record.append("time", &now);
        true
    }

    fn post(&self, record: &mut Record) -> (go_on: bool) {
        true
    }
}

/// Represent a stack trace frame
#[derive(Debug, Default, Clone)]
pub struct StackFrame {
    /// function name
    pub funcname: String,
    /// file name
    pub filename: String,
    /// line number
    pub lineno: u32,
}

impl Encode for StackFrame {
    open spec fn encoding(&self) -> Seq<u8> {
        seq![123u8] + json_text("funcname"@) + seq![58u8] + json_text(self.funcname@) + seq![44u8]
            + json_text("filename"@) + seq![58u8] + json_text(self.filename@) + seq![44u8]
            + json_text("lineno"@) + seq![58u8] + decimal(self.lineno as int) + seq![125u8]
    }

    fn encode(&self, buf: &mut Vec<u8>) {
        let ghost start = buf@;
        buf.push(123);
        "funcname".encode(buf);
        buf.push(58);
        self.funcname.encode(buf);
        buf.push(44);
        "filename".encode(buf);
        buf.push(58);
        self.filename.encode(buf);
        buf.push(44);
        "lineno".encode(buf);
        buf.push(58);
        self.lineno.encode(buf);
        buf.push(125);
        assert(buf@ =~= start + self.encoding());
    }
}

/// One symbol of a captured call stack, with what the unwinder knew of it.
pub struct RawSymbol {
    /// Demangled symbol name
    pub name: Option<String>,
    /// Source file
    pub file: Option<String>,
    /// Source line
    pub line: Option<u32>,
}

/// Relies on backtrace::Backtrace::new: the resolved symbols of the current
/// call stack, innermost first. What they are depends on the running program.
#[verifier::external_body]
fn capture_symbols() -> Vec<RawSymbol> {
    backtrace::Backtrace::new().frames().iter().flat_map(|f| f.symbols()).map(
        |s| RawSymbol {
            name: s.name().map(|n| n.to_string()),
            file: s.filename().map(|p| p.to_string_lossy().into_owned()),
            line: s.lineno(),
        },
    ).collect()
}

/// `s` begins with `p`.
pub open spec fn has_prefix(s: Seq<char>, p: Seq<char>) -> bool {
    p.len() <= s.len() && s.subrange(0, p.len() as int) == p
}

/// A frame of the runtime, of the unwinder or of this library.
pub open spec fn is_internal(name: Seq<char>, file: Seq<char>) -> bool {
    ||| has_prefix(file, "/rustc/"@)
    ||| has_prefix(name, "backtrace::"@)
    ||| has_prefix(name, "logkit::"@)
    ||| has_prefix(name, "<logkit"@)
}

/// A symbol that a stack trace shows: name, file and line known, and not internal.
pub open spec fn shown(s: RawSymbol) -> bool {
    &&& s.name is Some
    &&& s.file is Some
    &&& s.line is Some
    &&& !is_internal(s.name->0@, s.file->0@)
}

/// For each symbol, whether a stack trace leaves it out.
pub open spec fn hidden(raw: Seq<RawSymbol>) -> Seq<bool> {
    Seq::new(raw.len(), |i: int| !shown(raw[i]))
}

/// `frame` is the symbol `s` as a stack trace shows it.
pub open spec fn frame_of(frame: StackFrame, s: RawSymbol) -> bool {
    &&& s.name matches Some(name) && frame.funcname@ == name@
    &&& s.file matches Some(file) && frame.filename@ == file@
    &&& s.line == Some(frame.lineno)
}

/// Whether `s` begins with `p`.
fn starts_with(s: &str, p: &str) -> (r: bool)
    ensures
        r == has_prefix(s@, p@),
{
    let n = s.unicode_len();
    let m = p.unicode_len();
    if m > n {
        return false;
    }
    let mut i: usize = 0;
    while i < m
        invariant
            n == s@.len(),
            m == p@.len(),
            m <= n,
            i <= m,
            forall|k: int| 0 <= k < i ==> #[trigger] s@[k] == p@[k],
        decreases m - i,
    {
        if s.get_char(i) != p.get_char(i) {
            assert(s@.subrange(0, m as int)[i as int] != p@[i as int]);
            return false;
        }
        i = i + 1;
    }
    assert(s@.subrange(0, m as int) =~= p@);
    true
}

/// Whether a frame belongs to the runtime, the unwinder or this library.
fn internal(name: &String, file: &String) -> (r: bool)
    ensures
        r == is_internal(name@, file@),
{
    starts_with(file.as_str(), "/rustc/") || starts_with(name.as_str(), "backtrace::")
        || starts_with(name.as_str(), "logkit::") || starts_with(name.as_str(), "<logkit")
}

/// The frames that a stack trace shows, in the order of the symbols: those
/// with name, file and line, leaving out internal ones.
pub fn collect_frames(raw: Vec<RawSymbol>) -> (r: Vec<StackFrame>)
    ensures
        r@.len() == kept_positions(hidden(raw@)).len(),
        forall|k: int|
            0 <= k < r@.len() ==> #[trigger] frame_of(r@[k], raw@[kept_positions(hidden(raw@))[k]]),
{
    let ghost all = raw@;
    let mut raw = raw;
    let mut frames: Vec<StackFrame> = Vec::new();
    let ghost mut removed: Seq<bool> = Seq::empty();
    let n = raw.len();
    let mut j: usize = 0;
    while j < n
        invariant
            n == all.len(),
            j <= n,
            raw@ == all.subrange(j as int, n as int),
            removed == hidden(all).subrange(0, j as int),
            frames@.len() == kept_positions(removed).len(),
            forall|k: int|
                0 <= k < frames@.len() ==> #[trigger] frame_of(frames@[k], all[kept_positions(removed)[k]]),
        decreases n - j,
    {
        let sym = raw.remove(0);
        assert(sym == all[j as int]);
        let ghost before = removed;
        let mut keep = false;
        if let RawSymbol { name: Some(name), file: Some(file), line: Some(line) } = sym {
            if !internal(&name, &file) {
                let frame = StackFrame { funcname: name, filename: file, lineno: line };
                assert(frame_of(frame, all[j as int]));
                frames.push(frame);
                keep = true;
            }
        }
        proof {
            removed = removed.push(!keep);
            assert(removed =~= hidden(all).subrange(0, j + 1));
            assert(removed.drop_last() =~= before);
            assert(raw@ =~= all.subrange(j + 1, n as int));
            assert(kept_positions(removed) == if !keep {
                kept_positions(before)
            } else {
                kept_positions(before).push(j as int)
            });
        }
        j = j + 1;
    }
    assert(removed =~= hidden(all));
    frames
}

/// Add a stack trace to a record whose level is the plugin's, when the
/// trace is opted in: `{"stack":[{"funcname":"..","filename":"..","lineno":9}]}`.
/// Frames of the runtime, of the unwinder and of this library are left out.
pub struct StackPlugin {
    /// logs equal to this level will include a stack trace
    pub level: Level,
    /// whether the trace is walked at all
    pub enabled: bool,
}

impl StackPlugin {
    /// Create from level, with the trace opted in. Where the opt-in comes
    /// from a setting, build the plugin with `enabled: StackPlugin::opt_in(..)`.
    pub fn from_level(level: Level) -> (r: Self)
        ensures
            r.level == level,
            r.enabled,
    {
        StackPlugin { level, enabled: true }
    }

    /// Whether the value of the opt-in setting turns stack traces on: it
    /// does when it is set to anything but `0`.
    pub fn opt_in(value: Option<&str>) -> (r: bool)
        ensures
            r == (value matches Some(v) && v@ != "0"@),
    {
        match value {
            None => false,
            Some(v) => {
                proof {
                    reveal_strlit("0");
                }
                if v.unicode_len() == 1 && v.get_char(0) == '0' {
                    assert(v@ =~= "0"@);
                    false
                } else {
                    true
                }
            },
        }
    }
}

impl Plugin for StackPlugin {
    open spec fn pre_spec(&self, before: RecordView, after: RecordView, go_on: bool) -> bool {
        go_on && after == before
    }

    open spec fn post_spec(&self, before: RecordView, after: RecordView, go_on: bool) -> bool {
        &&& go_on
        &&& if before.level == self.level && self.enabled {
            exists|raw: Seq<RawSymbol>, frames: Seq<StackFrame>|
                #![trigger kept_positions(hidden(raw)), joined(frames)]
                {
                    &&& frames.len() == kept_positions(hidden(raw)).len()
                    &&& forall|k: int|
                        0 <= k < frames.len() ==> #[trigger] frame_of(
                            frames[k],
                            raw[kept_positions(hidden(raw))[k]],
                        )
                    &&& forall|i: int|
                        0 <= i < frames.len() ==> !is_internal(
                            #[trigger] frames[i].funcname@,
                            frames[i].filename@,
                        )
                    &&& after == RecordView {
                        bytes: before.bytes + field("stack"@, seq![91u8] + joined(frames) + seq![93u8]),
                        ..before
                    }
                }
        } else {
            after == before
        }
    }

    fn pre(&self, record: &mut Record) -> (go_on: bool) {
        true
    }

    fn post(&self, record: &mut Record) -> (go_on: bool) {
        if record.level() != self.level || !self.enabled {
            return true;
        }
        let raw = capture_symbols();
        let ghost raw_seq = raw@;
        let frames = collect_frames(raw);
        proof {
            lemma_kept_positions(hidden(raw_seq));
            assert forall|i: int| 0 <= i < frames@.len() implies !is_internal(
                #[trigger] frames@[i].funcname@,
                frames@[i].filename@,
            ) by {
                let p = kept_positions(hidden(raw_seq))[i];
                assert(frame_of(frames@[i], raw_seq[p]));
                assert(!hidden(raw_seq)[p]);
            }
        }
        record.append("stack", &frames);
        true
    }
}

/// A plugin as a logger holds it: one of the built-in plugins, whose
/// contracts callers can use, or any other plugin behind a box.
pub enum PluginEntry {
    /// The level label plugin
    Level(LevelPlugin),
    /// The timestamp plugin
    Time(TimePlugin),
    /// The stack trace plugin
    Stack(StackPlugin),
    /// A plugin of the caller's own
    Custom(Box<dyn Plugin>),
}

impl PluginEntry {
    /// What the entry's `pre` hook may do.
    pub open spec fn pre_allows(&self, before: RecordView, after: RecordView, go_on: bool) -> bool {
        match self {
            PluginEntry::Level(p) => p.pre_spec(before, after, go_on),
            PluginEntry::Time(p) => p.pre_spec(before, after, go_on),
            PluginEntry::Stack(p) => p.pre_spec(before, after, go_on),
            PluginEntry::Custom(p) => p.pre_spec(before, after, go_on),
        }
    }

    /// What the entry's `post` hook may do.
    pub open spec fn post_allows(&self, before: RecordView, after: RecordView, go_on: bool) -> bool {
        match self {
            PluginEntry::Level(p) => p.post_spec(before, after, go_on),
            PluginEntry::Time(p) => p.post_spec(before, after, go_on),
            PluginEntry::Stack(p) => p.post_spec(before, after, go_on),
            PluginEntry::Custom(p) => p.post_spec(before, after, go_on),
        }
    }

    /// Run the entry's `pre` hook.
    pub fn pre(&self, record: &mut Record) -> (go_on: bool)
        ensures
            self.pre_allows(old(record)@, final(record)@, go_on),
    {
        match self {
            PluginEntry::Level(p) => p.pre(record),
            PluginEntry::Time(p) => p.pre(record),
            PluginEntry::Stack(p) => p.pre(record),
            PluginEntry::Custom(p) => p.pre(record),
        }
    }

    /// Run the entry's `post` hook.
    pub fn post(&self, record: &mut Record) -> (go_on: bool)
        ensures
            self.post_allows(old(record)@, final(record)@, go_on),
    {
        match self {
            PluginEntry::Level(p) => p.post(record),
            PluginEntry::Time(p) => p.post(record),
            PluginEntry::Stack(p) => p.post(record),
            PluginEntry::Custom(p) => p.post(record),
        }
    }

    /// A built-in plugin: its hooks never stop a record.
    pub open spec fn is_built_in(&self) -> bool {
        !(self is Custom)
    }
}

} // verus!
