use jhp::bridge::{call_result_steps, BridgeStep};
use jhp::inclusion::{
    include_after_load, include_candidates, include_not_found, include_source, include_start, IncludeStep,
};
use jhp::paths::bootstrap_scripts;
use jhp::registry::{check_registration, install_plan, library_candidates, object_name_with, table_entries};
use jhp::{module_name_candidates, object_name_for, LoadError, ModuleRegistry};

#[test]
fn object_names_are_capitalised() {
    assert_eq!(object_name_for("sqlite3"), "Sqlite3");
    assert_eq!(object_name_for("demo"), "Demo");
    assert_eq!(object_name_for(""), "");
    assert_eq!(object_name_for("\u{df}x"), "SSx");
    assert_eq!(object_name_with("Q", "quote"), "Quote");
}

#[test]
fn candidates_strip_trailing_digits() {
    assert_eq!(module_name_candidates("sqlite3"), vec!["sqlite3", "sqlite"]);
    assert_eq!(module_name_candidates("demo"), vec!["demo"]);
    assert_eq!(module_name_candidates("123"), vec!["123"]);
    assert_eq!(module_name_candidates("v12"), vec!["v12", "v"]);
}

#[test]
fn library_paths_for_a_module() {
    assert_eq!(
        library_candidates("sqlite3", "ext"),
        vec!["ext/libjhp_ext_sqlite3.so", "ext/libjhp_ext_sqlite.so"]
    );
}

#[test]
fn registration_checks() {
    assert!(check_registration(1, false, 2).is_ok());
    assert!(matches!(check_registration(2, false, 2), Err(LoadError::UnsupportedAbi)));
    assert!(check_registration(1, true, 2).is_err());
    assert!(check_registration(1, false, 0).is_err());
}

#[test]
fn load_error_messages() {
    let e = LoadError::NoLibrary { module: "demo".to_string(), dir: "ext".to_string() };
    assert_eq!(e.message(), "No native library found for module 'demo' in ext");
    let e = LoadError::OpenFailed { path: "a.so".to_string(), reason: "bad".to_string() };
    assert_eq!(e.message(), "Failed to load a.so: bad");
    let e = LoadError::MissingSymbol { path: "a.so".to_string() };
    assert_eq!(e.message(), "Missing jhp_register_v1 in a.so");
    assert_eq!(LoadError::UnsupportedAbi.message(), "Unsupported extension ABI or empty function table");
}

#[test]
fn unreadable_names_are_skipped() {
    let t = table_entries(vec![Some("a".to_string()), None, Some("c".to_string())]);
    assert_eq!(t, vec![(0, "a".to_string()), (2, "c".to_string())]);
}

#[test]
fn registry_is_append_only() {
    let mut r: ModuleRegistry<u32> = ModuleRegistry::new("ext".to_string());
    assert!(!r.is_loaded("demo"));
    assert_eq!(r.object_name("demo"), None);
    assert!(r.record("demo", vec!["foo".to_string()], 7));
    assert!(!r.record("demo", vec![], 8));
    assert!(r.is_loaded("demo"));
    assert_eq!(r.len(), 1);
    assert_eq!(r.object_name("demo"), Some("Demo".to_string()));
    assert_eq!(r.installer("demo"), Some(&7));
    assert_eq!(*r.installer_at(0), 7);
    assert!(r.record("sqlite3", vec![], 9));
    assert_eq!(r.object_name("sqlite3"), Some("Sqlite3".to_string()));
    assert_eq!(r.ext_dir(), "ext");
}

#[test]
fn bootstrap_scripts_are_sorted_js_files() {
    let s = bootstrap_scripts(vec![
        "ext/m/b.js".to_string(),
        "ext/m/a.js".to_string(),
        "ext/m/c.txt".to_string(),
        "ext/m/.js".to_string(),
        "ext/m/B.js".to_string(),
    ]);
    assert_eq!(s, vec!["ext/m/B.js", "ext/m/a.js", "ext/m/b.js"]);
}

#[test]
fn native_result_with_data() {
    let s = call_result_steps(true, 0x1000, 8, 0);
    assert_eq!(
        s,
        vec![
            BridgeStep::ParseJson { ptr: 0x1000, len: 8 },
            BridgeStep::Free { ptr: 0x1000, len: 8 },
            BridgeStep::ReturnParsed
        ]
    );
    let s = call_result_steps(false, 0x1000, 8, 3);
    assert_eq!(s[2], BridgeStep::ThrowParsed);
}

#[test]
fn native_result_without_data_is_still_freed() {
    assert_eq!(
        call_result_steps(true, 0, 0, 0),
        vec![BridgeStep::Free { ptr: 0, len: 0 }, BridgeStep::ReturnUndefined]
    );
    assert_eq!(
        call_result_steps(false, 0x20, 0, 4),
        vec![BridgeStep::Free { ptr: 0x20, len: 0 }, BridgeStep::ThrowCode { code: 4 }]
    );
    let frees = call_result_steps(true, 0x40, 3, 0)
        .into_iter()
        .filter(|s| matches!(s, BridgeStep::Free { .. }))
        .count();
    assert_eq!(frees, 1);
}

#[test]
fn include_candidates_for_files_and_modules() {
    assert_eq!(include_candidates("lib.js", "root", "ext"), vec!["lib.js", "root/lib.js"]);
    assert_eq!(include_candidates("/abs/lib.js", "root", "ext"), vec!["/abs/lib.js", "/abs/lib.js"]);
    assert_eq!(
        include_candidates("demo", "root/", "ext"),
        vec!["root/demo.js", "ext/demo/demo.js", "ext/demo.js"]
    );
}

#[test]
fn include_steps() {
    assert!(matches!(include_start("demo", "root", "ext"), IncludeStep::LoadModule(k) if k == "demo"));
    assert!(matches!(include_start("part.jhp", "root", "ext"), IncludeStep::ReadFirst(v) if v == vec!["part.jhp", "root/part.jhp"]));
    match include_after_load("sqlite3", "root", "ext", true) {
        IncludeStep::ReturnModule { key, object_name } => {
            assert_eq!(key, "sqlite3");
            assert_eq!(object_name, "Sqlite3");
        }
        _ => panic!("expected the module object"),
    }
    assert!(matches!(
        include_after_load("demo", "root", "ext", false),
        IncludeStep::ReadFirst(v) if v == vec!["root/demo.js", "ext/demo/demo.js", "ext/demo.js"]
    ));
}

#[test]
fn include_sources() {
    let s = include_source("part.jhp", "root/part.jhp", "a<?= b ?>");
    assert_eq!(s.source, "echo(`a`);\necho(String(b));");
    assert_eq!(s.resource_name, "root/part.jhp");
    let s = include_source("lib.js", "lib.js", "x()");
    assert_eq!((s.source.as_str(), s.resource_name.as_str()), ("x()", "lib.js"));
    let s = include_source("shim", "ext/shim/shim.js", "y()");
    assert_eq!((s.source.as_str(), s.resource_name.as_str()), ("y()", "ext/shim/shim.js"));
    assert_eq!(include_not_found("nope"), "include('nope') read error: not found as module or file");
}

#[test]
fn include_resolves_native_module() {
    // `include("demo")` on a fresh registry: not loaded, so the library is looked up.
    let mut modules: ModuleRegistry<&str> = ModuleRegistry::new("ext".to_string());
    assert!(matches!(include_start("demo", "root", "ext"), IncludeStep::LoadModule(_)));
    assert!(!modules.is_loaded("demo"));
    assert_eq!(library_candidates("demo", modules.ext_dir()), vec!["ext/libjhp_ext_demo.so"]);
    assert!(check_registration(1, false, 1).is_ok());
    let table = table_entries(vec![Some("foo".to_string())]);
    let names: Vec<String> = table.into_iter().map(|(_, n)| n).collect();
    assert!(modules.record("demo", names, "demo-installer"));
    assert_eq!(modules.object_name("demo"), Some("Demo".to_string()));
    // `m.foo(21)` returns `{"x":42}`: parsed, freed once, returned.
    let steps = call_result_steps(true, 0x5000, 8, 0);
    assert_eq!(
        steps,
        vec![
            BridgeStep::ParseJson { ptr: 0x5000, len: 8 },
            BridgeStep::Free { ptr: 0x5000, len: 8 },
            BridgeStep::ReturnParsed
        ]
    );
    // A later request finds the module loaded and reuses its installer.
    assert!(modules.is_loaded("demo"));
    assert!(!modules.record("demo", vec![], "other"));
    assert_eq!(modules.installer("demo"), Some(&"demo-installer"));
    assert_eq!(modules.len(), 1);
}

#[test]
fn key_states_follow_loading() {
    let mut r: ModuleRegistry<u8> = ModuleRegistry::new("ext".to_string());
    assert!(r.start_loading("demo"));
    assert!(!r.start_loading("demo"));
    assert!(!r.is_loaded("demo"));
    r.abandon_loading("demo");
    assert!(r.start_loading("demo"));
    assert!(r.record("demo", vec![], 1));
    assert!(!r.start_loading("demo"));
    r.abandon_loading("demo");
    assert!(r.is_loaded("demo"));
}

#[test]
fn install_plan_names_the_module_object() {
    let p = install_plan("sqlite3", vec!["open".to_string(), "query".to_string()]);
    assert_eq!(p.object_name, "Sqlite3");
    assert_eq!(p.functions, vec!["open", "query"]);
}
