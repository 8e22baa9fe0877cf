use script_router::script::decimal_string;
use script_router::script::harness_program;
use script_router::script::ScriptStore;

const EXPECTED: &str = "async function handle(req) { return { ip: \"a:1\" }; }\n\nasync function handler(req) {\n    try {\n        return await handle(req);\n    } catch (e) {\n        console.error(\"| ERROR | Worker 3 | Job 4021 |\");\n        console.error(e.stack);\n        return {\n            block_connection: true,\n        };\n    }\n}\n\nhandler({\"ip\":\"10.0.0.1\",\"port\":7070}).then(async (res) => {\n    await Deno.core.ops.op_callback(4021, res);\n});\n";

#[test]
fn harness_wraps_script_request_and_id() {
    let p = harness_program(
        "async function handle(req) { return { ip: \"a:1\" }; }",
        3,
        4021,
        "{\"ip\":\"10.0.0.1\",\"port\":7070}",
    );
    assert_eq!(p, EXPECTED);
}

#[test]
fn harness_turns_exception_into_block() {
    let p = harness_program("async function handle(req) { throw new Error('x'); }", 0, 0, "{}");
    let catch_at = p.find("} catch (e) {").unwrap();
    let block_at = p.find("block_connection: true").unwrap();
    let stack_at = p.find("console.error(e.stack);").unwrap();
    assert!(catch_at < stack_at && stack_at < block_at);
    assert!(p.ends_with("op_callback(0, res);\n});\n"));
}

#[test]
fn decimal_digits() {
    assert_eq!(decimal_string(0), "0");
    assert_eq!(decimal_string(7), "7");
    assert_eq!(decimal_string(10), "10");
    assert_eq!(decimal_string(4294967295), "4294967295");
    assert_eq!(decimal_string(u64::MAX), "18446744073709551615");
}

#[test]
fn reload_replaces_only_changed_text() {
    let mut store = ScriptStore::new("v1".to_string());
    assert!(!store.reload("v1".to_string()));
    assert_eq!(store.snapshot(), "v1");
    assert!(store.reload("v2".to_string()));
    assert_eq!(store.snapshot(), "v2");
}

#[test]
fn reload_between_jobs_affects_second_job_only() {
    let mut store = ScriptStore::new("function handle(r) { return {block_connection: true}; }".to_string());
    let first = store.snapshot();
    let first_program = harness_program(&first, 1, 5, "{}");
    assert!(store.reload("function handle(r) { return {ip: \"127.0.0.1:9\"}; }".to_string()));
    let second = store.snapshot();
    let second_program = harness_program(&second, 1, 5, "{}");
    assert!(first_program.starts_with("function handle(r) { return {block_connection: true}; }"));
    assert!(second_program.starts_with("function handle(r) { return {ip: \"127.0.0.1:9\"}; }"));
    assert_eq!(first, "function handle(r) { return {block_connection: true}; }");
    assert_ne!(first_program, second_program);
    assert_eq!(harness_program(&first, 1, 5, "{}"), first_program);
}
