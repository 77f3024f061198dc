use mdbook_variables::scanner::find_variables;
use mdbook_variables::substitute::{missing_message, replace_all, split_path};
use mdbook_variables::value::{Table, Value};
use mdbook_variables::{ConfigWarning, VariablesPreprocessor};

fn s(x: &str) -> String {
    x.to_owned()
}

fn table_of(pairs: &[(&str, &str)]) -> Table {
    let mut table = Table::new();
    for (k, v) in pairs {
        table.insert(s(k), Value::String(s(v)));
    }
    table
}

fn no_env() -> Vec<(String, String)> {
    Vec::new()
}

#[test]
pub fn test_variable_replaced() {
    let to_replace = r" # Text {{var1}} \
            text \
            text {{var2}} \
            val  \
            (text {{var3}})[{{var3}}/other] \
        ";

    let mut table = Table::new();
    table.insert("var1".to_owned(), Value::String("first".to_owned()));
    table.insert("var2".to_owned(), Value::String("second".to_owned()));
    table.insert("var3".to_owned(), Value::String("third".to_owned()));

    let result = replace_all(to_replace, &table, false, &no_env());

    assert_eq!(
        result.content,
        r" # Text first \
            text \
            text second \
            val  \
            (text third)[third/other] \
        "
    );
}

#[test]
pub fn test_variable_replaced_env() {
    let to_replace = r" # Text {{var1}} \
            text \
            text {{var2}} \
            val  \
            (text {{var3}})[{{var3}}/other] \
        ";

    let env = vec![
        ("var1".to_owned(), "first".to_owned()),
        ("var2".to_owned(), "second".to_owned()),
        ("var3".to_owned(), "third".to_owned()),
    ];

    let table = Table::new();
    let result = replace_all(to_replace, &table, true, &env);

    assert_eq!(
        result.content,
        r" # Text first \
            text \
            text second \
            val  \
            (text third)[third/other] \
        "
    );
}

#[test]
fn scenario_three_variables() {
    let table = table_of(&[("var1", "first"), ("var2", "second"), ("var3", "third")]);
    let r = replace_all(
        "Text {{var1}} text {{var2}} val (text {{var3}})[{{var3}}/other]",
        &table,
        false,
        &no_env(),
    );
    assert_eq!(r.content, "Text first text second val (text third)[third/other]");
    assert!(r.missing.is_empty());
}

#[test]
fn scenario_environment_fallback() {
    let env = vec![(s("var1"), s("first"))];
    let r = replace_all("{{var1}} {{var2}}", &Table::new(), true, &env);
    assert_eq!(r.content, "first ");
    assert_eq!(r.missing, vec![s("var2")]);
}

#[test]
fn environment_ignored_without_use_env() {
    let env = vec![(s("var1"), s("first"))];
    let r = replace_all("{{var1}}!", &Table::new(), false, &env);
    assert_eq!(r.content, "!");
    assert_eq!(r.missing, vec![s("var1")]);
}

#[test]
fn environment_uses_whole_dotted_name() {
    let env = vec![(s("a.b"), s("env")), (s("a"), s("wrong"))];
    let r = replace_all("[{{a.b}}]", &Table::new(), true, &env);
    assert_eq!(r.content, "[env]");
}

#[test]
fn table_wins_over_environment() {
    let env = vec![(s("a"), s("env"))];
    let r = replace_all("{{a}}", &table_of(&[("a", "table")]), true, &env);
    assert_eq!(r.content, "table");
}

#[test]
fn scenario_adjacent_placeholders() {
    let table = table_of(&[("a", "1"), ("b", "2")]);
    let r = replace_all("{{a}}{{b}}", &table, false, &no_env());
    assert_eq!(r.content, "12");
    let found = find_variables("{{a}}{{b}}");
    assert_eq!(found.len(), 2);
    assert_eq!(found[0].end_index, found[1].start_index);
}

#[test]
fn scenario_unclosed_placeholder() {
    let r = replace_all("{{ not closed", &Table::new(), false, &no_env());
    assert_eq!(r.content, "{{ not closed");
    assert!(r.missing.is_empty());
}

#[test]
fn resolved_value_is_not_scanned_again() {
    let table = table_of(&[("a", "{{x}}"), ("x", "no")]);
    let r = replace_all("<{{a}}>", &table, false, &no_env());
    assert_eq!(r.content, "<{{x}}>");
}

#[test]
fn text_without_placeholders_is_unchanged() {
    let text = "plain { text } with {single} braces, ünïcödé and }} closers";
    let r = replace_all(text, &table_of(&[("single", "x")]), true, &no_env());
    assert_eq!(r.content, text);
    assert!(find_variables(text).is_empty());
}

#[test]
fn empty_document() {
    let r = replace_all("", &table_of(&[("a", "1")]), false, &no_env());
    assert_eq!(r.content, "");
    assert!(find_variables("").is_empty());
}

#[test]
fn length_accounts_for_each_replacement() {
    let input = "ab {{x}} cd {{ yy }} e";
    let table = table_of(&[("x", "12345"), ("yy", "")]);
    let r = replace_all(input, &table, false, &no_env());
    assert_eq!(r.content, "ab 12345 cd  e");
    let expected = input.chars().count() as i64 + (5 - 5) + (0 - 8);
    assert_eq!(r.content.chars().count() as i64, expected);
}

#[test]
fn spaces_around_name_are_trimmed() {
    let found = find_variables("x{{  a.b\t}}y{{\u{3000}c\u{a0}}}");
    assert_eq!(found.len(), 2);
    assert_eq!(found[0].name, "a.b");
    assert_eq!(found[0].start_index, 1);
    assert_eq!(found[0].end_index, 11);
    assert_eq!(found[1].name, "c");
    assert_eq!(found[1].start_index, 12);
    assert_eq!(found[1].end_index, 19);
}

#[test]
fn malformed_names_do_not_match() {
    assert!(find_variables("{{a b}}").is_empty());
    assert!(find_variables("{{a-b}}").is_empty());
    assert!(find_variables("{{}}").is_empty());
    assert!(find_variables("{{  }}").is_empty());
    assert!(find_variables("{{a}").is_empty());
    let found = find_variables("{{{a}}}");
    assert_eq!(found.len(), 1);
    assert_eq!(found[0].start_index, 1);
    assert_eq!(found[0].end_index, 6);
}

#[test]
fn indices_count_characters() {
    let found = find_variables("é{{v}}");
    assert_eq!(found.len(), 1);
    assert_eq!(found[0].start_index, 1);
    assert_eq!(found[0].end_index, 6);
    let r = replace_all("é{{v}}ü", &table_of(&[("v", "ß")]), false, &no_env());
    assert_eq!(r.content, "éßü");
}

#[test]
fn dotted_path_follows_nested_tables() {
    let mut c = Table::new();
    c.insert(s("c"), Value::String(s("deep")));
    let mut b = Table::new();
    b.insert(s("b"), Value::Table(c));
    let mut root = Table::new();
    root.insert(s("a"), Value::Table(b));
    root.insert(s("n"), Value::Integer(3));
    let r = replace_all("{{a.b.c}}|{{a.x}}|{{n.c}}|{{a.b.c.d}}", &root, false, &no_env());
    assert_eq!(r.content, "deep|||");
    assert_eq!(r.missing, vec![s("a.x"), s("n.c"), s("a.b.c.d")]);
}

#[test]
fn flat_key_with_dot_is_not_found_by_path() {
    let table = table_of(&[("a.b", "flat")]);
    let r = replace_all("{{a.b}}", &table, false, &no_env());
    assert_eq!(r.content, "");
    assert_eq!(r.missing, vec![s("a.b")]);
}

#[test]
fn split_path_keeps_empty_segments() {
    assert_eq!(split_path(&s("a.b.c")), vec![s("a"), s("b"), s("c")]);
    assert_eq!(split_path(&s("a..b")), vec![s("a"), s(""), s("b")]);
    assert_eq!(split_path(&s(".a")), vec![s(""), s("a")]);
    assert_eq!(split_path(&s("abc")), vec![s("abc")]);
}

#[test]
fn numbers_and_booleans_render_canonically() {
    let mut t = Table::new();
    t.insert(s("i"), Value::Integer(42));
    t.insert(s("z"), Value::Integer(0));
    t.insert(s("neg"), Value::Integer(-1907));
    t.insert(s("min"), Value::Integer(i64::MIN));
    t.insert(s("max"), Value::Integer(i64::MAX));
    t.insert(s("yes"), Value::Boolean(true));
    t.insert(s("no"), Value::Boolean(false));
    t.insert(s("f"), Value::Literal(s("1.5")));
    let r = replace_all(
        "{{i}} {{z}} {{neg}} {{min}} {{max}} {{yes}} {{no}} {{f}}",
        &t,
        false,
        &no_env(),
    );
    assert_eq!(
        r.content,
        "42 0 -1907 -9223372036854775808 9223372036854775807 true false 1.5"
    );
}

#[test]
fn arrays_and_tables_render_inline() {
    let mut inner = Table::new();
    inner.insert(s("k"), Value::String(s("v")));
    inner.insert(s("n"), Value::Integer(1));
    let mut t = Table::new();
    t.insert(
        s("arr"),
        Value::Array(vec![
            Value::Integer(1),
            Value::String(s("two")),
            Value::Array(vec![Value::Boolean(true)]),
        ]),
    );
    t.insert(s("tab"), Value::Table(inner));
    t.insert(s("empty"), Value::Array(vec![]));
    let r = replace_all("{{arr}} {{tab}} {{empty}}", &t, false, &no_env());
    assert_eq!(r.content, "[1, \"two\", [true]] {k = \"v\", n = 1} []");
}

#[test]
fn insert_replaces_existing_key() {
    let mut t = Table::new();
    t.insert(s("a"), Value::String(s("old")));
    t.insert(s("a"), Value::String(s("new")));
    assert_eq!(t.entries.len(), 1);
    let r = replace_all("{{a}}", &t, false, &no_env());
    assert_eq!(r.content, "new");
}

#[test]
fn message_names_variable_and_chapter() {
    assert_eq!(
        missing_message(&s("var2"), "intro.md"),
        "Not found value for variable 'var2' from chapter 'intro.md'"
    );
    assert_eq!(
        missing_message(&s("x"), ""),
        "Not found value for variable 'x' from chapter ''"
    );
}

#[test]
fn preprocessor_name() {
    let p = VariablesPreprocessor::new();
    assert_eq!(p.name(), "variables");
}

#[test]
fn settings_without_configuration() {
    let p = VariablesPreprocessor::new();
    let st = p.settings(None);
    assert!(st.variables.is_none());
    assert!(!st.use_env);
    assert_eq!(st.warnings.len(), 1);
    assert!(matches!(st.warnings[0], ConfigWarning::NoConfiguration));
}

#[test]
fn settings_read_variables_and_use_env() {
    let p = VariablesPreprocessor::new();
    let mut cfg = Table::new();
    cfg.insert(s("variables"), Value::Table(table_of(&[("a", "1")])));
    cfg.insert(s("use_env"), Value::Boolean(true));
    let st = p.settings(Some(&cfg));
    assert!(st.use_env);
    assert!(st.warnings.is_empty());
    let vars = st.variables.expect("variables table");
    assert_eq!(replace_all("{{a}}", vars, st.use_env, &no_env()).content, "1");
}

#[test]
fn settings_warn_on_bad_values() {
    let p = VariablesPreprocessor::new();
    let mut cfg = Table::new();
    cfg.insert(s("use_env"), Value::String(s("yes")));
    let st = p.settings(Some(&cfg));
    assert!(st.variables.is_none());
    assert!(!st.use_env);
    assert_eq!(st.warnings.len(), 2);
    assert!(matches!(st.warnings[0], ConfigWarning::NoVariables));
    assert!(matches!(st.warnings[1], ConfigWarning::UseEnvNotBoolean));

    let mut cfg2 = Table::new();
    cfg2.insert(s("variables"), Value::Integer(3));
    let st2 = p.settings(Some(&cfg2));
    assert!(st2.variables.is_none());
    assert!(st2.warnings.is_empty());
}
