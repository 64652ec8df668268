use reconf::compiler::path::normalize_path;
use reconf::compiler::{join_path, parent_dir, Compiler, SourceInput};
use reconf::emit::json::emit_json;
use reconf::error::ErrorCode;
use reconf::eval::value::Value;
use reconf::resolve::modules::Loader;

fn eval_json(src: &str, pretty: bool) -> String {
    let compiler = Compiler::new();
    let out = compiler.eval(SourceInput::new("main.reconf", "", src)).unwrap();
    emit_json(out.output(), pretty).unwrap()
}

fn eval_error(src: &str) -> ErrorCode {
    let compiler = Compiler::new();
    match compiler.eval(SourceInput::new("main.reconf", "", src)) {
        Ok(_) => panic!("expected an error"),
        Err(e) => e.code(),
    }
}

#[test]
fn readme_example_evaluates_to_normalized_data() {
    let src = r#"
type Port = { x : Int | x > 1024 && x < 65535 };

let config = {
  port = 8080,
} : { port : Port };

config
"#;
    assert_eq!(eval_json(src, false), r#"{"port":8080}"#);
    let compiler = Compiler::new();
    let out = compiler.eval(SourceInput::new("main.reconf", "", src)).unwrap();
    assert_eq!(reconf::emit::ReconfEmitter::new().emit(out.data_output()), "{ port = 8080 }");
}

#[test]
fn omitted_optional_fields_become_null() {
    let src = r#"
let server : { host : String, port : Int? } = { host = "localhost" };
server
"#;
    assert_eq!(eval_json(src, false), r#"{"host":"localhost","port":null}"#);
}

#[test]
fn implicit_some_wraps_plain_values() {
    let src = r#"
let port : Int? = 8080;
[port, none]
"#;
    let compiler = Compiler::new();
    let out = compiler.eval(SourceInput::new("main.reconf", "", src)).unwrap();
    assert_eq!(reconf::eval::emit(out.output()).unwrap(), "[some 8080, none]");
    assert_eq!(emit_json(out.output(), false).unwrap(), "[8080,null]");
}

#[test]
fn refinement_failure_is_reported() {
    let src = r#"
type Port = { x : Int | x > 1024 };
let p : Port = 80;
p
"#;
    assert_eq!(eval_error(src), ErrorCode::RefineFailed);
}

#[test]
fn type_errors_are_reported_by_code() {
    assert_eq!(eval_error("let x : Bool = 1;\nx"), ErrorCode::TypeMismatch);
    assert_eq!(eval_error("let x : Port = 1;\nx"), ErrorCode::TypeUnknown);
    assert_eq!(eval_error("let r : { a : Int } = { a = 1, b = 2 };\nr"), ErrorCode::RecordUnknownField);
    assert_eq!(eval_error("let r : { a : Int, b : Int } = { a = 1 };\nr"), ErrorCode::RecordMissingField);
    assert_eq!(eval_error("type A = Int;\ntype A = A;\nlet x : A = 1;\nx"), ErrorCode::TypeRecursiveAlias);
}

#[test]
fn runtime_errors_are_reported_by_code() {
    assert_eq!(eval_error("1 / 0"), ErrorCode::RuntimeDivisionByZero);
    assert_eq!(eval_error("let f = (x : Int) => x;\nf"), ErrorCode::OutputFunction);
}

#[test]
fn later_declarations_see_earlier_ones() {
    let src = r#"
let a = 2;
let b = a * 3;
{ a = a, b = b }
"#;
    assert_eq!(eval_json(src, false), r#"{"a":2,"b":6}"#);
}

#[test]
fn pretty_json_indents_nested_values() {
    let src = r#"{ name = "app", ports = [1, 2], empty = [] : [Int] }"#;
    assert_eq!(
        eval_json(src, true),
        "{\n  \"empty\": [],\n  \"name\": \"app\",\n  \"ports\": [\n    1,\n    2\n  ]\n}"
    );
}

#[test]
fn json_strings_are_escaped() {
    let v = Value::Str("a\"b\\c\nd\u{1}".to_string());
    assert_eq!(emit_json(&v, false).unwrap(), r#""a\"b\\c\nd\u0001""#);
}

#[test]
fn natives_are_available_in_files() {
    let src = r#"
let xs = [1, 2, 3];
{ has = xs.contains 2, size = length xs, text = "n={length xs}" }
"#;
    assert_eq!(eval_json(src, false), r#"{"has":true,"size":3,"text":"n=3"}"#);
}

#[test]
fn imports_come_from_loaded_modules() {
    let mut compiler = Compiler::new();
    let lib_src = "export let answer = 42;\nexport type Small = { x : Int | x < 10 };\nanswer";
    let lib = compiler.check(SourceInput::new("dir/lib.reconf", "dir", lib_src)).unwrap().into_module();
    let paths = compiler
        .import_paths(&SourceInput::new("dir/main.reconf", "dir", "import \"lib.reconf\": answer, Small;\nlet s : Small = 3;\n{ a = answer, s = s }"))
        .unwrap();
    assert_eq!(paths, vec!["dir/lib.reconf".to_string()]);
    let loader = compiler.loader_mut();
    assert_eq!(loader.begin("dir/lib.reconf").unwrap(), false);
    loader.finish("dir/lib.reconf".to_string(), lib);
    let out = compiler
        .eval(SourceInput::new("dir/main.reconf", "dir", "import \"lib.reconf\": answer, Small;\nlet s : Small = 3;\n{ a = answer, s = s }"))
        .unwrap();
    assert_eq!(emit_json(out.output(), false).unwrap(), r#"{"a":42,"s":3}"#);
    let missing = compiler.eval(SourceInput::new("dir/main.reconf", "dir", "import \"other.reconf\": x;\nx"));
    assert_eq!(missing.err().unwrap().code(), ErrorCode::ModuleMissingImport);
    let unexported = compiler.eval(SourceInput::new("dir/main.reconf", "dir", "import \"lib.reconf\": hidden;\n1"));
    assert_eq!(unexported.err().unwrap().code(), ErrorCode::ModuleUnexportedImport);
    let duplicate = compiler.eval(SourceInput::new("dir/main.reconf", "dir", "import \"lib.reconf\": answer, answer;\n1"));
    assert_eq!(duplicate.err().unwrap().code(), ErrorCode::NameDuplicateImport);
}

#[test]
fn loader_reports_cycles_and_caches() {
    let mut loader = Loader::new();
    assert_eq!(loader.begin("a.reconf").unwrap(), false);
    assert_eq!(loader.begin("b.reconf").unwrap(), false);
    assert_eq!(loader.begin("a.reconf").unwrap_err().code(), ErrorCode::ModuleCycle);
    loader.finish("b.reconf".to_string(), reconf::resolve::modules::Module::new());
    assert_eq!(loader.begin("b.reconf").unwrap(), true);
    assert!(loader.cached("b.reconf").is_some());
    assert!(loader.cached("a.reconf").is_none());
}

#[test]
fn paths_resolve_against_directories() {
    assert_eq!(join_path("dir", "lib.reconf"), "dir/lib.reconf");
    assert_eq!(join_path("dir/", "lib.reconf"), "dir/lib.reconf");
    assert_eq!(join_path("", "lib.reconf"), "lib.reconf");
    assert_eq!(join_path("dir", "/abs.reconf"), "/abs.reconf");
    assert_eq!(parent_dir("a/b/c.reconf"), "a/b");
    assert_eq!(parent_dir("c.reconf"), "");
    assert_eq!(parent_dir("/c.reconf"), "/");
    let input = SourceInput::from_path("conf/main.reconf", "1".to_string());
    assert_eq!(input.base_dir(), "conf");
    assert_eq!(input.name(), "conf/main.reconf");
}

#[test]
fn import_paths_are_in_normal_form() {
    assert_eq!(join_path("dir", "./self.reconf"), "dir/self.reconf");
    assert_eq!(join_path("dir/sub", "../lib.reconf"), "dir/lib.reconf");
    assert_eq!(join_path("", "../x.reconf"), "../x.reconf");
    assert_eq!(join_path("/", "../x.reconf"), "/x.reconf");
    assert_eq!(join_path("a", "b/../../.."), "..");
    assert_eq!(normalize_path("./a//b/."), "a/b");
    assert_eq!(normalize_path("."), ".");
    assert_eq!(normalize_path("/"), "/");
    let paths = Compiler::new()
        .import_paths(&SourceInput::new("dir/main.reconf", "dir", "import \"./main.reconf\": x;\nx"))
        .unwrap();
    assert_eq!(paths, vec!["dir/main.reconf".to_string()]);
}

#[test]
fn evaluation_errors_carry_their_messages() {
    let compiler = Compiler::new();
    let message = |src: &str| match compiler.eval(SourceInput::new("main.reconf", "", src)) {
        Err(error) => error.message().to_string(),
        Ok(_) => panic!("accepted: {src}"),
    };
    assert_eq!(message("let x = 1;\nx.missing"), "unknown field `missing`");
    assert_eq!(message("9223372036854775807 + 1"), "integer overflow");
    assert_eq!(message("1 % 0"), "division by zero");
}

#[test]
fn files_of_literal_bindings_evaluate() {
    assert_eq!(eval_json("let debug = true;\nlet port = 8080;\nlet verbose = false;\nfalse", false), "false");
    assert_eq!(eval_json("let a = 1;\nlet b = 2;\n3", false), "3");
    assert_eq!(eval_json("let host = \"localhost\";\nlet port = 8080;\n\"ok\"", false), "\"ok\"");
}

#[test]
fn a_lone_alias_of_a_built_in_type_checks() {
    let compiler = Compiler::new();
    assert!(compiler.check(SourceInput::new("main.reconf", "", "type Port = Int;")).is_ok());
    assert!(compiler.check(SourceInput::new("main.reconf", "", "type Name = String;")).is_ok());
    assert_eq!(
        compiler.check(SourceInput::new("main.reconf", "", "type Port = Missing;")).err().unwrap().code(),
        ErrorCode::TypeUnknown
    );
}
