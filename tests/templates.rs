use template_engine::context::DerivedContext;
use template_engine::text::{decimal_string, parse_count, trim};
use template_engine::{parse_template, process_template, resolve_tree, Error};

fn vars(pairs: &[(&str, &str)]) -> Vec<(String, String)> {
    pairs.iter().map(|(k, v)| (k.to_string(), v.to_string())).collect()
}

fn render(template: &str, pairs: &[(&str, &str)]) -> Result<String, Error> {
    let mut out = String::new();
    process_template(&mut out, template, &vars(pairs))?;
    Ok(out)
}

#[test]
fn if_true_renders_body() {
    assert_eq!(render("{% IF 1 %}A{%END%}", &[]), Ok("A".to_string()));
}

#[test]
fn if_zero_renders_nothing() {
    assert_eq!(render("{% IF 0 %}A{%END%}", &[]), Ok(String::new()));
}

#[test]
fn if_empty_condition_renders_nothing() {
    assert_eq!(render("{% IF %}A{%END%}", &[]), Ok(String::new()));
}

#[test]
fn if_without_space_before_close() {
    assert_eq!(render("{%IF 1%}A{%END%}", &[]), Ok("A".to_string()));
    assert_eq!(render("{%IF%}A{%END%}", &[]), Ok(String::new()));
}

#[test]
fn with_binds_two_variables() {
    assert_eq!(render("{% WITH X=1,Y=2 %}{{X}}{{Y}}{%END%}", &[]), Ok("12".to_string()));
}

#[test]
fn with_binding_is_not_visible_outside() {
    assert_eq!(
        render("{% WITH X=1,Y=2 %}{{X}}{%END%}{{X}}", &[]),
        Err(Error::NoSuchVariable("X".to_string()))
    );
}

#[test]
fn with_later_assignment_sees_earlier_one() {
    assert_eq!(render("{% WITH X=1,Y={{X}}2 %}{{Y}}{%END%}", &[]), Ok("12".to_string()));
}

#[test]
fn with_shadows_outer_variable() {
    assert_eq!(render("{{X}}{% WITH X=in %}{{X}}{%END%}{{X}}", &[("X", "out")]), Ok("outinout".to_string()));
}

#[test]
fn with_without_equals_fails() {
    assert_eq!(render("{% WITH X %}{%END%}", &[]), Err(Error::NoAssignmentInWith));
    assert_eq!(render("{% WITH X=1, %}{%END%}", &[]), Err(Error::NoAssignmentInWith));
}

#[test]
fn with_two_equals_fails() {
    assert_eq!(render("{% WITH X=1=2 %}{%END%}", &[]), Err(Error::TooManyAssignmentsInWith));
    assert_eq!(render("{% WITH X={{A}}=2 %}{%END%}", &[("A", "a")]), Err(Error::TooManyAssignmentsInWith));
}

#[test]
fn with_nested_value_is_not_split() {
    assert_eq!(render("{% WITH X={{A}} %}{{X}}{%END%}", &[("A", "p,q=r")]), Ok("p,q=r".to_string()));
}

#[test]
fn loop_index_counts_up() {
    assert_eq!(render("{% LOOP 3 %}{{LOOP_INDEX}},{%END%}", &[]), Ok("0,1,2,".to_string()));
}

#[test]
fn loop_index_past_nine() {
    assert_eq!(render("{% LOOP 12 %}{{LOOP_INDEX}}{%END%}", &[]), Ok("01234567891011".to_string()));
}

#[test]
fn loop_repeats_body_n_times() {
    for n in 0..20usize {
        let template = format!("{{% LOOP {} %}}x{{%END%}}", n);
        assert_eq!(render(&template, &[]), Ok("x".repeat(n)));
    }
}

#[test]
fn loop_zero_renders_nothing() {
    assert_eq!(render("{% LOOP 0 %}x{%END%}", &[]), Ok(String::new()));
}

#[test]
fn loop_count_with_plus_sign() {
    assert_eq!(render("{% LOOP +2 %}x{%END%}", &[]), Ok("xx".to_string()));
}

#[test]
fn loop_count_from_variable() {
    assert_eq!(render("{% LOOP {{N}} %}ab{%END%}", &[("N", " 2 ")]), Ok("abab".to_string()));
}

#[test]
fn loop_bad_count_fails() {
    assert_eq!(render("{% LOOP abc %}x{%END%}", &[]), Err(Error::ShouldBeInteger("abc".to_string())));
    assert_eq!(render("{% LOOP -1 %}x{%END%}", &[]), Err(Error::ShouldBeInteger("-1".to_string())));
    assert_eq!(render("{% LOOP %}x{%END%}", &[]), Err(Error::ShouldBeInteger(String::new())));
    assert_eq!(
        render("{% LOOP 2147483648 %}x{%END%}", &[]),
        Err(Error::ShouldBeInteger("2147483648".to_string()))
    );
}

#[test]
fn not_of_values() {
    let cases = [("", "1"), ("0", "1"), ("abc", "0"), ("1", "0"), ("00", "0"), (" 0 ", "1"), ("  ", "1")];
    for (value, expected) in cases.iter() {
        assert_eq!(render("{% NOT {{v}} %}", &[("v", value)]), Ok(expected.to_string()));
    }
}

#[test]
fn not_is_inline() {
    assert_eq!(render("a {% NOT 0 %} b", &[]), Ok("a 1 b".to_string()));
}

#[test]
fn unterminated_variable_fails() {
    assert_eq!(render("{{ unterminated", &[]), Err(Error::MissingTerminal("}}".to_string())));
}

#[test]
fn unknown_block_fails() {
    assert_eq!(render("{% WHAT %}...{%END%}", &[]), Err(Error::UnknownBlock("WHAT".to_string())));
}

#[test]
fn missing_end_fails() {
    assert_eq!(render("{% IF 1 %}A", &[]), Err(Error::MissingTerminal("{%END%}".to_string())));
    assert_eq!(render("{% IF 1 A", &[]), Err(Error::MissingTerminal("%}".to_string())));
}

#[test]
fn stray_end_fails() {
    assert_eq!(render("a{%END%}", &[]), Err(Error::UnknownBlock("END".to_string())));
}

#[test]
fn block_open_at_end_fails() {
    assert_eq!(render("abc{%", &[]), Err(Error::UnknownBlock(String::new())));
    assert_eq!(render("abc{% LOOP", &[]), Err(Error::MissingTerminal("%}".to_string())));
}

#[test]
fn plain_text_renders_itself() {
    let texts = ["", "hello", "  spaced  \n\t lines \n", "a } b % c { d", "{x} %} }}"];
    for t in texts.iter() {
        assert_eq!(render(t, &[]), Ok(t.to_string()));
    }
}

#[test]
fn variable_lookup_is_trimmed() {
    assert_eq!(render("[{{ name }}]", &[("name", " v ")]), Ok("[ v ]".to_string()));
}

#[test]
fn missing_variable_fails() {
    assert_eq!(render("{{X}}", &[]), Err(Error::NoSuchVariable("X".to_string())));
}

#[test]
fn variable_name_is_computed() {
    assert_eq!(render("{{ {{A}} }}", &[("A", "B"), ("B", "hi")]), Ok("hi".to_string()));
}

#[test]
fn later_binding_wins_in_list_context() {
    assert_eq!(render("{{X}}", &[("X", "1"), ("X", "2")]), Ok("2".to_string()));
}

#[test]
fn block_tags_on_own_lines_leave_no_gaps() {
    let template = "a\n  {% IF 1 %}\nB\n  {%END%}\nc";
    assert_eq!(render(template, &[]), Ok("a\nB\nc".to_string()));
}

#[test]
fn derived_context_prefers_child() {
    let parent = vars(&[("A", "p"), ("B", "pb")]);
    let child = vars(&[("A", "c")]);
    let scope = DerivedContext { parent: &parent, child: &child };
    let mut out = String::new();
    process_template(&mut out, "{{A}}{{B}}", &scope).unwrap();
    assert_eq!(out, "cpb");
}

#[test]
fn derived_context_with_empty_layer_renders_the_same() {
    let parent = vars(&[("A", "1"), ("B", "0")]);
    let empty: Vec<(String, String)> = Vec::new();
    let scope = DerivedContext { parent: &parent, child: &empty };
    let templates = ["{{A}}{% IF {{B}} %}x{%END%}{% LOOP 2 %}{{A}}{%END%}", "{{C}}"];
    for t in templates.iter() {
        let tree = parse_template(t).unwrap();
        let mut direct = String::new();
        let mut layered = String::new();
        let r1 = resolve_tree(&mut direct, &tree, &parent);
        let r2 = resolve_tree(&mut layered, &tree, &scope);
        assert_eq!(r1, r2);
        assert_eq!(direct, layered);
    }
}

#[test]
fn resolve_appends_to_sink() {
    let tree = parse_template("b{{X}}").unwrap();
    let mut out = "a".to_string();
    resolve_tree(&mut out, &tree, &vars(&[("X", "c")])).unwrap();
    assert_eq!(out, "abc");
}

#[test]
fn trim_removes_surrounding_white_space() {
    assert_eq!(trim("  a b \n\t"), "a b");
    assert_eq!(trim("\u{2003}x\u{00a0}"), "x");
    assert_eq!(trim("   "), "");
}

#[test]
fn parse_count_reads_decimal() {
    assert_eq!(parse_count("42"), Some(42));
    assert_eq!(parse_count("+7"), Some(7));
    assert_eq!(parse_count("2147483647"), Some(2147483647));
    assert_eq!(parse_count("2147483648"), None);
    assert_eq!(parse_count(""), None);
    assert_eq!(parse_count("+"), None);
    assert_eq!(parse_count("1x"), None);
}

#[test]
fn decimal_string_writes_digits() {
    assert_eq!(decimal_string(0), "0");
    assert_eq!(decimal_string(7), "7");
    assert_eq!(decimal_string(1234567890), "1234567890");
    assert_eq!(decimal_string(4294967295), "4294967295");
}
