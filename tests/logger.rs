use std::sync::atomic::{AtomicUsize, Ordering};
use std::sync::{Arc, Mutex};

use logkit::plugin::{collect_frames, RawSymbol};
use logkit::{
    LevelPlugin, Logger, Plugin, PluginEntry, Record, SecondsFormat, Source, StackPlugin, Target, TimePlugin,
    LEVEL_DEBUG, LEVEL_ERROR, LEVEL_INFO, LEVEL_TRACE, LEVEL_WARN,
};

fn custom(plugin: impl Plugin + 'static) -> PluginEntry {
    PluginEntry::Custom(Box::new(plugin))
}

fn here() -> Source {
    Source { file: "tests/logger.rs", line: 1, column: 1 }
}

struct Collect {
    lines: Arc<Mutex<Vec<Vec<u8>>>>,
    tag: &'static str,
    order: Arc<Mutex<Vec<&'static str>>>,
}

impl Target for Collect {
    fn write(&self, buf: &[u8]) {
        self.lines.lock().unwrap().push(buf.to_vec());
        self.order.lock().unwrap().push(self.tag);
    }
}

fn collector(tag: &'static str) -> (Collect, Arc<Mutex<Vec<Vec<u8>>>>, Arc<Mutex<Vec<&'static str>>>) {
    let lines = Arc::new(Mutex::new(vec![]));
    let order = Arc::new(Mutex::new(vec![]));
    (Collect { lines: lines.clone(), tag, order: order.clone() }, lines, order)
}

struct Gate {
    pre_ok: bool,
    post_ok: bool,
    pre_calls: Arc<AtomicUsize>,
    post_calls: Arc<AtomicUsize>,
}

impl Plugin for Gate {
    fn pre(&self, record: &mut Record) -> bool {
        self.pre_calls.fetch_add(1, Ordering::SeqCst);
        record.append("gate", &"pre");
        self.pre_ok
    }

    fn post(&self, _record: &mut Record) -> bool {
        self.post_calls.fetch_add(1, Ordering::SeqCst);
        self.post_ok
    }
}

fn gate(pre_ok: bool, post_ok: bool) -> (Gate, Arc<AtomicUsize>, Arc<AtomicUsize>) {
    let pre_calls = Arc::new(AtomicUsize::new(0));
    let post_calls = Arc::new(AtomicUsize::new(0));
    (Gate { pre_ok, post_ok, pre_calls: pre_calls.clone(), post_calls: post_calls.clone() }, pre_calls, post_calls)
}

struct Field {
    key: &'static str,
    value: i32,
}

impl Plugin for Field {
    fn pre(&self, _record: &mut Record) -> bool {
        true
    }

    fn post(&self, record: &mut Record) -> bool {
        record.append(self.key, &self.value);
        true
    }
}

fn texts(lines: &Arc<Mutex<Vec<Vec<u8>>>>) -> Vec<String> {
    lines.lock().unwrap().iter().map(|l| String::from_utf8_lossy(l).to_string()).collect()
}

fn keys(line: &[u8]) -> Vec<String> {
    let value: serde_json::Value = serde_json::from_slice(line).unwrap();
    value.as_object().unwrap().keys().cloned().collect()
}

#[test]
fn new_logger_lets_every_level_through() {
    let logger = Logger::new(None);
    assert_eq!(logger.level(), LEVEL_TRACE);
    assert!(logger.allow(LEVEL_TRACE));
    assert_eq!(logger.plugins().len(), 0);
    assert_eq!(logger.targets().len(), 0);
    let nop = Logger::nop();
    assert_eq!(nop.level(), LEVEL_TRACE);
}

#[test]
fn limit_and_allow() {
    let mut logger = Logger::new(None);
    logger.limit(LEVEL_INFO);
    assert_eq!(logger.level(), LEVEL_INFO);
    assert!(!logger.allow(LEVEL_TRACE));
    assert!(!logger.allow(LEVEL_DEBUG));
    assert!(logger.allow(LEVEL_INFO));
    assert!(logger.allow(LEVEL_WARN));
    assert!(logger.allow(LEVEL_ERROR));
}

#[test]
fn below_filter_nothing_runs() {
    let mut logger = Logger::new(None);
    let (plugin, pre_calls, post_calls) = gate(true, true);
    let (target, lines, _) = collector("t");
    logger.limit(LEVEL_WARN).mount(custom(plugin)).route(Box::new(target));
    for level in [LEVEL_TRACE, LEVEL_DEBUG, LEVEL_INFO, -5] {
        assert!(logger.spawn(level, here()).is_none());
    }
    assert_eq!(pre_calls.load(Ordering::SeqCst), 0);
    assert_eq!(post_calls.load(Ordering::SeqCst), 0);
    assert!(lines.lock().unwrap().is_empty());
    assert!(logger.spawn(LEVEL_WARN, here()).is_some());
    assert_eq!(pre_calls.load(Ordering::SeqCst), 1);
}

#[test]
fn spawn_and_finish_without_plugins() {
    let logger = Logger::new(None);
    let mut record = logger.spawn(LEVEL_TRACE, here()).unwrap();
    record.append("hello", &"world");
    record.finish();
    assert_eq!(String::from_utf8_lossy(record.buffer().as_slice()), "{\"hello\":\"world\"}\n");
}

#[test]
fn fields_follow_mount_then_append_order() {
    let mut logger = Logger::new(None);
    let (target, lines, _) = collector("t");
    logger.mount(PluginEntry::Level(LevelPlugin));
    logger.mount(PluginEntry::Time(TimePlugin::from_millis()));
    logger.route(Box::new(target));
    let mut record = logger.spawn(LEVEL_INFO, here()).unwrap();
    record.append("x", &1);
    logger.flush(record);
    let written = lines.lock().unwrap().clone();
    assert_eq!(written.len(), 1);
    assert_eq!(keys(&written[0]), vec!["level", "time", "x"]);
    let line = String::from_utf8_lossy(&written[0]).to_string();
    assert!(line.starts_with("{\"level\":\"info\",\"time\":\""));
    assert!(line.ends_with("\",\"x\":1}\n"));
}

#[test]
fn pre_veto_yields_nothing_and_skips_later_plugins() {
    let mut logger = Logger::new(None);
    let (first, first_pre, _) = gate(false, true);
    let (second, second_pre, _) = gate(true, true);
    let (target, lines, _) = collector("t");
    logger.mount(custom(first)).mount(custom(second)).route(Box::new(target));
    assert!(logger.spawn(LEVEL_INFO, here()).is_none());
    assert_eq!(first_pre.load(Ordering::SeqCst), 1);
    assert_eq!(second_pre.load(Ordering::SeqCst), 0);
    assert!(lines.lock().unwrap().is_empty());
}

#[test]
fn pre_veto_returns_the_record_to_the_pool() {
    let mut logger = Logger::new(None);
    let record = logger.spawn(LEVEL_INFO, here()).unwrap();
    let storage = record.buffer().as_ptr();
    logger.reuse(record);
    let (plugin, pre_calls, _) = gate(false, true);
    logger.mount(custom(plugin));
    for _ in 0..3 {
        assert!(logger.spawn(LEVEL_INFO, here()).is_none());
    }
    assert_eq!(pre_calls.load(Ordering::SeqCst), 3);
    logger.unmount(|_| true);
    let record = logger.spawn(LEVEL_INFO, here()).unwrap();
    assert_eq!(record.buffer().as_ptr(), storage);
    assert_eq!(String::from_utf8_lossy(record.buffer().as_slice()), "{");
}

#[test]
fn post_veto_writes_nothing() {
    let mut logger = Logger::new(None);
    let (first, _, first_post) = gate(true, false);
    let (second, _, second_post) = gate(true, true);
    let (target, lines, _) = collector("t");
    logger.mount(custom(first)).mount(custom(second)).route(Box::new(target));
    let mut record = logger.spawn(LEVEL_INFO, here()).unwrap();
    record.append("msg", &"dropped");
    assert!(!logger.flush(record));
    assert_eq!(first_post.load(Ordering::SeqCst), 1);
    assert_eq!(second_post.load(Ordering::SeqCst), 0);
    assert!(lines.lock().unwrap().is_empty());
}

#[test]
fn flush_writes_default_target_then_routed_ones() {
    let (default_target, default_lines, order) = collector("default");
    let default_target: &'static Collect = Box::leak(Box::new(default_target));
    let mut logger = Logger::new(Some(default_target));
    let lines = Arc::new(Mutex::new(vec![]));
    let first = Collect { lines: lines.clone(), tag: "first", order: order.clone() };
    let second = Collect { lines: lines.clone(), tag: "second", order: order.clone() };
    logger.route(Box::new(first)).route(Box::new(second));
    assert_eq!(logger.targets().len(), 2);
    let mut record = logger.spawn(LEVEL_INFO, here()).unwrap();
    record.append("k", &"v");
    assert!(logger.flush(record));
    assert_eq!(*order.lock().unwrap(), vec!["default", "first", "second"]);
    assert_eq!(texts(&default_lines), vec!["{\"k\":\"v\"}\n"]);
    assert_eq!(texts(&lines), vec!["{\"k\":\"v\"}\n", "{\"k\":\"v\"}\n"]);
}

#[test]
fn post_plugins_append_after_the_callers_fields() {
    let mut logger = Logger::new(None);
    let (target, lines, _) = collector("t");
    logger.mount(custom(Field { key: "first", value: 1 }));
    logger.mount(custom(Field { key: "second", value: 2 }));
    logger.route(Box::new(target));
    let mut record = logger.spawn(LEVEL_INFO, here()).unwrap();
    record.append("msg", &"m");
    logger.flush(record);
    assert_eq!(texts(&lines), vec!["{\"msg\":\"m\",\"first\":1,\"second\":2}\n"]);
}

#[test]
fn unmount_and_unroute_keep_the_others_in_order() {
    let mut logger = Logger::new(None);
    logger.mount(custom(Field { key: "a", value: 1 }));
    logger.mount(PluginEntry::Level(LevelPlugin));
    logger.mount(custom(Field { key: "b", value: 2 }));
    assert_eq!(logger.plugins().len(), 3);
    logger.unmount(|_| false);
    assert_eq!(logger.plugins().len(), 3);
    let seen = std::cell::Cell::new(0);
    logger.unmount(|_| {
        seen.set(seen.get() + 1);
        seen.get() == 2
    });
    assert_eq!(logger.plugins().len(), 2);
    let (target, lines, _) = collector("t");
    logger.route(Box::new(target));
    let record = logger.spawn(LEVEL_INFO, here()).unwrap();
    logger.flush(record);
    assert_eq!(texts(&lines), vec!["{\"a\":1,\"b\":2}\n"]);
    logger.mount(PluginEntry::Level(LevelPlugin));
    assert_eq!(logger.plugins().len(), 3);
    logger.unmount(|p| matches!(p, PluginEntry::Level(_)));
    assert_eq!(logger.plugins().len(), 2);
    logger.unroute(|_| true);
    assert_eq!(logger.targets().len(), 0);
    logger.unmount(|_| true);
    assert_eq!(logger.plugins().len(), 0);
}

#[test]
fn written_lines_are_json_for_scalar_fields() {
    let mut logger = Logger::new(None);
    let (target, lines, _) = collector("t");
    logger.mount(PluginEntry::Level(LevelPlugin)).route(Box::new(target));
    let mut record = logger.spawn(LEVEL_WARN, here()).unwrap();
    record.append("s", &"tab\there \"q\" \\");
    record.append("n", &-17_i32);
    record.append("big", &u64::MAX);
    record.append("t", &true);
    logger.flush(record);
    let written = lines.lock().unwrap().clone();
    let value: serde_json::Value = serde_json::from_slice(&written[0]).unwrap();
    assert_eq!(value["level"], serde_json::Value::String("warn".to_string()));
    assert_eq!(value["s"], serde_json::Value::String("tab\there \"q\" \\".to_string()));
    assert_eq!(value["n"].as_i64(), Some(-17));
    assert_eq!(value["big"].as_u64(), Some(u64::MAX));
    assert_eq!(value["t"].as_bool(), Some(true));
}

#[test]
fn recycled_record_reuses_its_buffer() {
    let logger = Logger::new(None);
    let mut record = logger.spawn(LEVEL_INFO, here()).unwrap();
    record.append("msg", &"a fixed set of fields");
    let capacity = record.buffer().capacity();
    let storage = record.buffer().as_ptr();
    logger.flush(record);
    let mut again = logger.spawn(LEVEL_INFO, here()).unwrap();
    assert_eq!(again.buffer().as_ptr(), storage);
    assert_eq!(String::from_utf8_lossy(again.buffer().as_slice()), "{");
    again.append("msg", &"a fixed set of fields");
    assert_eq!(again.buffer().capacity(), capacity);
    assert_eq!(again.buffer().as_ptr(), storage);
}

#[test]
fn custom_level_is_labelled_by_its_number() {
    let mut logger = Logger::new(None);
    let (target, lines, _) = collector("t");
    logger.limit(10).mount(PluginEntry::Level(LevelPlugin)).route(Box::new(target));
    assert!(logger.spawn(9, here()).is_none());
    let record = logger.spawn(10, here()).unwrap();
    assert_eq!(record.level(), 10);
    logger.flush(record);
    let record = logger.spawn(-3 + 20, here()).unwrap();
    logger.flush(record);
    assert_eq!(texts(&lines), vec!["{\"level\":\"10\"}\n", "{\"level\":\"17\"}\n"]);
}

#[test]
fn level_plugin_names_built_in_levels() {
    let mut logger = Logger::new(None);
    logger.mount(PluginEntry::Level(LevelPlugin));
    let expected = [(LEVEL_TRACE, "trace"), (LEVEL_DEBUG, "debug"), (LEVEL_INFO, "info"), (LEVEL_WARN, "warn"), (LEVEL_ERROR, "error")];
    for (level, name) in expected {
        let mut record = logger.spawn(level, here()).unwrap();
        record.finish();
        assert_eq!(
            String::from_utf8_lossy(record.buffer().as_slice()),
            format!("{{\"level\":\"{}\"}}\n", name)
        );
    }
}

#[test]
fn time_plugin_writes_rfc3339_text() {
    assert_eq!(TimePlugin::from_secs().format, SecondsFormat::Secs);
    assert_eq!(TimePlugin::from_micros().format, SecondsFormat::Micros);
    assert_eq!(TimePlugin::from_nanos().format, SecondsFormat::Nanos);
    let plugin = TimePlugin::from_millis();
    let mut record = Record::new(LEVEL_INFO, 64, here());
    assert!(plugin.pre(&mut record));
    assert!(plugin.post(&mut record));
    record.finish();
    let value: serde_json::Value = serde_json::from_slice(record.buffer().as_slice()).unwrap();
    let time = value["time"].as_str().unwrap().to_string();
    assert_eq!(time.len(), "2024-01-03T11:01:00.123+08:00".len());
    assert_eq!(&time[4..5], "-");
    assert_eq!(&time[10..11], "T");
    assert_eq!(&time[19..20], ".");
}

fn symbol(name: &str, file: &str, line: u32) -> RawSymbol {
    RawSymbol { name: Some(name.to_string()), file: Some(file.to_string()), line: Some(line) }
}

#[test]
fn stack_frames_leave_out_internal_and_incomplete_symbols() {
    let raw = vec![
        symbol("backtrace::capture::Backtrace::new", "/cargo/backtrace/src/capture.rs", 10),
        symbol("logkit::plugin::capture_symbols", "/src/plugin.rs", 20),
        symbol("<logkit::plugin::StackPlugin as logkit::plugin::Plugin>::post", "/src/plugin.rs", 30),
        symbol("core::ops::function::FnOnce::call_once", "/rustc/abc/library/core/src/ops/function.rs", 40),
        symbol("app::handler", "/src/handler.rs", 50),
        RawSymbol { name: Some("app::no_file".to_string()), file: None, line: Some(1) },
        RawSymbol { name: None, file: Some("/src/x.rs".to_string()), line: Some(2) },
        RawSymbol { name: Some("app::no_line".to_string()), file: Some("/src/y.rs".to_string()), line: None },
        symbol("app::main", "/src/main.rs", 60),
    ];
    let frames = collect_frames(raw);
    assert_eq!(frames.len(), 2);
    assert_eq!(frames[0].funcname, "app::handler");
    assert_eq!(frames[0].filename, "/src/handler.rs");
    assert_eq!(frames[0].lineno, 50);
    assert_eq!(frames[1].funcname, "app::main");
    assert_eq!(frames[1].lineno, 60);
}

#[test]
fn stack_plugin_acts_only_at_its_level_when_opted_in() {
    let plugin = StackPlugin::from_level(LEVEL_ERROR);
    assert_eq!(plugin.level, LEVEL_ERROR);
    assert!(plugin.enabled);

    let mut info = Record::new(LEVEL_INFO, 64, here());
    assert!(plugin.post(&mut info));
    assert_eq!(String::from_utf8_lossy(info.buffer().as_slice()), "{");

    let off = StackPlugin { level: LEVEL_ERROR, enabled: false };
    let mut error = Record::new(LEVEL_ERROR, 64, here());
    assert!(off.post(&mut error));
    assert_eq!(String::from_utf8_lossy(error.buffer().as_slice()), "{");

    let mut error = Record::new(LEVEL_ERROR, 64, here());
    assert!(plugin.pre(&mut error));
    assert!(plugin.post(&mut error));
    error.finish();
    let value: serde_json::Value = serde_json::from_slice(error.buffer().as_slice()).unwrap();
    let stack = value["stack"].as_array().unwrap();
    for frame in stack {
        let name = frame["funcname"].as_str().unwrap();
        assert!(!name.starts_with("backtrace::"));
        assert!(!name.starts_with("logkit::"));
        assert!(!frame["filename"].as_str().unwrap().starts_with("/rustc/"));
        assert!(frame["lineno"].as_u64().is_some());
    }
}

#[test]
fn stack_opt_in_setting() {
    assert!(!StackPlugin::opt_in(None));
    assert!(!StackPlugin::opt_in(Some("0")));
    assert!(StackPlugin::opt_in(Some("1")));
    assert!(StackPlugin::opt_in(Some("full")));
    assert!(StackPlugin::opt_in(Some("00")));
    assert!(StackPlugin::opt_in(Some("")));
}

fn shared_between_threads<T: Send + Sync>() {}

#[test]
fn logger_and_records_can_cross_threads() {
    shared_between_threads::<Logger>();
    shared_between_threads::<Record>();
}

#[test]
fn fresh_records_get_the_configured_capacity() {
    let logger = Logger::new(None);
    let record = logger.spawn(LEVEL_INFO, here()).unwrap();
    assert!(record.buffer().capacity() >= 512);
    let mut logger = Logger::new(None);
    logger.capacity(4096);
    let record = logger.spawn(LEVEL_INFO, here()).unwrap();
    assert!(record.buffer().capacity() >= 4096);
}
