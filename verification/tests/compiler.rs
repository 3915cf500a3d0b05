use cligen::compile;
use cligen::generate::cpp::field_type_to_cpp_type;
use cligen::lexer::Tokens;
use cligen::parse::Parser;
use cligen::semantic::check_semantics;
use cligen::types::AttributeType;
use cligen::types::FieldType;

fn compile_ok(src: &str) -> String {
    match compile(src) {
        Ok(out) => out,
        Err(e) => panic!("expected success, got diagnostic:\n{}", e),
    }
}

fn compile_err(src: &str) -> String {
    match compile(src) {
        Ok(out) => panic!("expected a diagnostic, got output:\n{}", out),
        Err(e) => e,
    }
}

#[test]
fn empty_source_compiles_to_empty_unit() {
    let out = compile_ok("");
    let expected = "#ifndef _CLI_H_\n#define _CLI_H_\n\n#include <cstdint>\n#include <cstdlib>\n\
                    #include <cstring>\n#include <cstdio>\n#include <cerrno>\n#include <string>\n\
                    #include <vector>\n\n#endif // _CLI_H_\n";
    assert_eq!(out, expected);
}

#[test]
fn empty_struct_exact_output() {
    let out = compile_ok("struct S {}");
    let lines: Vec<&str> = vec![
        "#ifndef _CLI_H_\n",
        "#define _CLI_H_\n",
        "\n",
        "#include <cstdint>\n",
        "#include <cstdlib>\n",
        "#include <cstring>\n",
        "#include <cstdio>\n",
        "#include <cerrno>\n",
        "#include <string>\n",
        "#include <vector>\n",
        "\n",
        "struct S {\n",
        "\n",
        "    void print_debug() {\n",
        "        printf(\"S {\\n\");\n",
        "        printf(\"}\\n\");\n",
        "    }\n",
        "\n",
        "    static void help() {\n",
        "        printf(\"Usage: S [OPTIONS]\\n\"\n",
        "        \"\\n\"\n",
        "        \"Options:\\n\"\n",
        "        \"    -h, --help\\n\"\n",
        "    );\n",
        "    exit(0);\n",
        "}\n",
        "\n",
        "    static bool is_option(char* arg) {\n",
        "        static const char* valid_options[] = {\n",
        "        };\n",
        "\n",
        "        for (size_t i = 0; i != 0; ++i) {\n",
        "            if (strcmp(arg, valid_options[i]) == 0) {\n",
        "                return true;\n",
        "            }\n",
        "        }\n",
        "\n",
        "        return false;\n",
        "    }\n",
        "\n",
        "    static S parse (int argc, char *args[]) {\n",
        "        const char* mandatory_field_names[] = { };\n",
        "        bool mandatory_fields_seen[sizeof(mandatory_field_names)/sizeof(mandatory_field_names[0])] = { false };\n",
        "\n",
        "        S res = {};\n",
        "        for (int i = 0; i != argc; ++i, ++args) {\n",
        "            char *arg = args[0];\n",
        "            if (strcmp(\"-h\", arg) == 0 || strcmp(\"--help\", arg) == 0) {\n",
        "                S::help();\n",
        "            } else {\n",
        "                printf(\"Unknown option '%s'\\n\", arg);\n",
        "                exit(1);\n",
        "            }\n",
        "        }\n",
        "\n",
        "        bool not_seen_any = false;\n",
        "        for (size_t i = 0; i != sizeof(mandatory_field_names)/sizeof(mandatory_field_names[0]); ++i) {\n",
        "            if (!mandatory_fields_seen[i]) {\n",
        "                printf(\"--%s was required but it was not provided\\n\", mandatory_field_names[i]);\n",
        "                not_seen_any = true;\n",
        "            }\n",
        "        }\n",
        "        if (not_seen_any) {\n",
        "            exit(1);\n",
        "        }\n",
        "        return res;\n",
        "    }\n",
        "};\n",
        "\n",
        "#endif // _CLI_H_\n",
    ];
    let expected: String = lines.join("");
    assert_eq!(out, expected);
}

#[test]
fn compiling_twice_is_byte_identical() {
    let src = "#[main]\nstruct Args {\n    #[short, long] name: string,\n    #[long] count: Optional<i32>,\n}\n";
    let a = compile_ok(src);
    let b = compile_ok(src);
    assert_eq!(a, b);
}

#[test]
fn duplicate_struct_reports_both_locations() {
    let e = compile_err("struct S {}\nstruct S {}\n");
    assert!(e.contains("Multiple type definition"));
    assert!(e.contains("Redefinition of type"));
    assert!(e.contains("Has already been defined here"));
}

#[test]
fn duplicate_field_reports_both_locations() {
    let e = compile_err("struct S { a: i32, a: i32 }");
    assert!(e.contains("Multiple field definition"));
    assert!(e.contains("Redefinition of field"));
    assert!(e.contains("Has already been defined here"));
}

#[test]
fn undefined_bare_reference_is_rejected() {
    let e = compile_err("struct S { a: Missing }");
    assert!(e.contains("Semantic error"));
    assert!(e.contains("Undefined type"));
}

#[test]
fn undefined_reference_inside_vec_is_rejected() {
    let e = compile_err("struct S { a: Vec<Missing> }");
    assert!(e.contains("Undefined type"));
}

#[test]
fn main_and_subcommand_together_are_rejected() {
    let e = compile_err("#[main, subcommand]\nstruct S {}\n");
    assert!(e.contains("Invalid attribute combination"));
    assert!(e.contains("Only main or subcommand attributes are allowed"));
}

#[test]
fn field_attribute_on_struct_is_rejected() {
    let e = compile_err("#[short]\nstruct S {}\n");
    assert!(e.contains("Invalid attribute"));
    assert!(e.contains("Allowed attributes: main, subcommand"));
}

#[test]
fn struct_attribute_on_field_is_rejected() {
    let e = compile_err("struct S { #[main] a: i32 }");
    assert!(e.contains("Invalid field attribute"));
    assert!(e.contains("Valid field attributes are: short, long, alias, flatten"));
}

#[test]
fn derived_short_collision_is_rejected() {
    let e = compile_err("struct S { #[short] foo: i32, #[short] fizz: i32 }");
    assert!(e.contains("Invalid field attribute usage"));
    assert!(e.contains("There's already a field with the same starting character"));
}

#[test]
fn explicit_short_override_resolves_collision() {
    let out = compile_ok("struct S { #[short] foo: i32, #[short = b] fizz: i32 }");
    assert!(out.contains("strcmp(arg, \"-f\") == 0"));
    assert!(out.contains("strcmp(arg, \"-b\") == 0"));
}

#[test]
fn long_collides_with_alias_of_same_text() {
    let e = compile_err("struct S { #[alias = all] a: i32, #[long = all] b: i32 }");
    assert!(e.contains("There's already a field with the same long name or alias"));
}

#[test]
fn alias_collides_with_long_of_same_text() {
    let e = compile_err("struct S { #[long = all] a: i32, #[alias = all] b: i32 }");
    assert!(e.contains("There's already a field with the same alias or long name"));
}

#[test]
fn flatten_on_string_is_rejected() {
    let e = compile_err("struct Config {}\nstruct S { #[flatten] c: string }");
    assert!(e.contains("Flatten should be used with a custom type"));
}

#[test]
fn flatten_on_defined_struct_succeeds() {
    let out = compile_ok(
        "struct Config { #[long] level: i32 }\nstruct S { #[flatten] config: Config }\n",
    );
    assert!(out.contains("strcmp(arg, \"--level\") == 0"));
    assert!(out.contains("res.config.level = arg_res;"));
}

#[test]
fn end_to_end_args_spec_machinery() {
    let out = compile_ok(
        "#[main]\nstruct Args {\n    #[short, long] name: string,\n    #[long] count: Optional<i32>,\n}\n",
    );
    // the main struct skips the program name
    assert!(out.contains("--argc;"));
    // short and long spellings of `name`, and the long spelling of `count`
    assert!(out.contains("strcmp(arg, \"-n\") == 0"));
    assert!(out.contains("strcmp(arg, \"--name\") == 0"));
    assert!(out.contains("strcmp(arg, \"--count\") == 0"));
    // `name` is mandatory, `count` is not
    assert!(out.contains("const char* mandatory_field_names[] = { \"name\", };"));
    assert!(out.contains("mandatory_fields_seen[0] = true;"));
    assert!(out.contains("--%s was required but it was not provided"));
    // help prints usage and exits with success; unknown options are fatal
    assert!(out.contains("printf(\"Usage: Args [OPTIONS]\\n\""));
    assert!(out.contains("\"    -n, --name <NAME>\\n\""));
    assert!(out.contains("exit(0);"));
    assert!(out.contains("Unknown option '%s'"));
    // the optional count is laid out as std::optional
    assert!(out.contains("std::optional<int32_t> count;"));
}

#[test]
fn vec_field_accumulates_with_push_back() {
    let out = compile_ok("struct S { #[long] n: Vec<i32> }");
    assert!(out.contains("res.n.push_back(arg_res);"));
    assert!(out.contains("std::vector<int32_t> n;"));
}

#[test]
fn integer_validation_keeps_literal_zero_carve_out() {
    let out = compile_ok("struct S { #[long] n: i32 }");
    assert!(out.contains("if (arg_res == 0 && strcmp(arg_value, \"0\") != 0) {"));
    assert!(out.contains("is not a valid integer"));
    assert!(out.contains("out of range for integer type"));
}

#[test]
fn non_string_values_check_for_options() {
    let out = compile_ok("struct S { #[long] n: i32, #[long] s: string }");
    // a numeric value must not itself be a known option
    assert!(out.contains("if (i == argc || S::is_option(args[0])) {"));
    // a string value is taken verbatim
    assert!(out.contains("if (i == argc) {"));
    assert!(out.contains("Expected value for option '%s' but no value was provided"));
}

#[test]
fn unknown_character_is_a_lexer_error() {
    let e = compile_err("struct S { a: i32 } $");
    assert!(e.contains("Lexer error"));
    assert!(e.contains("Unknown token"));
}

#[test]
fn premature_end_of_input_is_reported() {
    let e = compile_err("struct S {");
    assert!(e.contains("Parser error"));
    assert!(e.contains("Unexpected end of file"));
}

#[test]
fn unexpected_token_lists_the_expected_set() {
    let e = compile_err("struct S { a: } ");
    assert!(e.contains("Unexpected token"));
    assert!(e.contains("Tokens can be any of:"));
}

#[test]
fn empty_attribute_block_is_rejected() {
    let e = compile_err("struct S { #[] a: i32 }");
    assert!(e.contains("Parse error"));
    assert!(e.contains("Attributes cannot be empty"));
}

#[test]
fn parser_builds_defaulted_attribute_values() {
    let mut parser = Parser::new("struct S { #[short, long] my_field: string }");
    let spec = parser.parse().expect("spec should parse");
    assert_eq!(spec.structs.len(), 1);
    let field = &spec.structs[0].fields[0];
    assert_eq!(field.name, "my_field");
    // the derived short is the first character; the derived long is the
    // field name; both are hyphen-rendered when read
    assert_eq!(field.short_value().as_deref(), Some("m"));
    assert_eq!(field.long_value().as_deref(), Some("my-field"));
}

#[test]
fn alias_values_are_hyphen_rendered_in_matchers() {
    let out = compile_ok("struct S { #[long, alias = long_form] a: i32 }");
    assert!(out.contains("strcmp(arg, \"--long-form\") == 0"));
}

#[test]
fn underscored_long_is_hyphen_rendered() {
    let out = compile_ok("struct S { #[long] my_field: i32 }");
    assert!(out.contains("strcmp(arg, \"--my-field\") == 0"));
    assert!(out.contains("\"    --my-field <MY_FIELD>\\n\""));
}

#[test]
fn flattened_fields_share_the_help_and_option_lists() {
    let out = compile_ok(
        "struct Inner { #[long] depth: i32 }\nstruct Outer { #[long] width: i32, #[flatten] inner: Inner }\n",
    );
    // the flattened field appears in Outer's help and option list
    assert!(out.contains("\"    --depth <DEPTH>\\n\""));
    assert!(out.contains("res.inner.depth = arg_res;"));
    // both structs are laid out
    assert!(out.contains("struct Inner {"));
    assert!(out.contains("struct Outer {"));
    assert!(out.contains("Inner inner;"));
}

#[test]
fn get_fields_resolves_flatten_recursively() {
    let mut parser = Parser::new(
        "struct A { #[long] x: i32 }\nstruct B { #[long] y: i32, #[flatten] a: A }\nstruct C { #[flatten] b: B }\n",
    );
    let spec = parser.parse().expect("spec should parse");
    let meta = check_semantics(&spec).expect("spec should check");
    let c = &spec.structs[2];
    let visible: Vec<String> = c.get_fields(&meta).iter().map(|f| f.name.clone()).collect();
    assert_eq!(visible, vec!["b".to_string(), "y".to_string(), "a".to_string(), "x".to_string()]);
}

#[test]
fn nested_generic_wrapping_is_not_expressible() {
    let e = compile_err("struct S { a: Vec<Vec> }");
    assert!(e.contains("Unexpected token"));
}

#[test]
fn field_type_mapping_is_exact() {
    assert_eq!(field_type_to_cpp_type(&FieldType::String), "std::string");
    assert_eq!(field_type_to_cpp_type(&FieldType::I16), "int16_t");
    assert_eq!(field_type_to_cpp_type(&FieldType::U64), "uint64_t");
    assert_eq!(field_type_to_cpp_type(&FieldType::Bool), "bool");
    assert_eq!(
        field_type_to_cpp_type(&FieldType::Vec(Box::new(FieldType::F32))),
        "std::vector<float>"
    );
    assert_eq!(
        field_type_to_cpp_type(&FieldType::Optional(Box::new(FieldType::Struct(
            "Config".to_string()
        )))),
        "std::optional<Config>"
    );
}

#[test]
fn token_literals_round_trip() {
    assert_eq!(Tokens::Struct.as_token_literal(), "struct");
    assert_eq!(Tokens::LBrace.as_token_literal(), "{");
    assert_eq!(Tokens::Identifier.as_token_literal(), "regex: [a-z,A-Z_]+");
    assert_eq!(Tokens::Short.as_attribute_type().to_literal(), "short");
    assert!(matches!(Tokens::Vec.as_field_type(), FieldType::Vec(_)));
    assert_eq!(Tokens::attribute_tokens().len(), 8);
    assert_eq!(Tokens::type_tokens().len(), 13);
}

#[test]
fn allowed_attribute_kind_lists() {
    let on_struct = AttributeType::allowed_struct_attribute_types();
    assert!(matches!(on_struct[..], [AttributeType::Main, AttributeType::SubCommand]));
    let on_field = AttributeType::allowed_field_attribute_types();
    assert_eq!(on_field.len(), 4);
    assert_eq!(AttributeType::Flatten.to_literal(), "flatten");
}

#[test]
fn keywords_lex_exactly_and_longer_words_are_identifiers() {
    // `structs` is one character longer than the keyword, so it is an
    // identifier and can be used as a struct name
    let out = compile_ok("struct structs { #[long] value: u16 }");
    assert!(out.contains("struct structs {"));
    assert!(out.contains("uint16_t value;"));
}

#[test]
fn subcommand_struct_does_not_skip_program_name() {
    let out = compile_ok("#[subcommand]\nstruct Sub { #[long] v: bool }");
    assert!(!out.contains("--argc;"));
    assert!(out.contains("bool arg_res = true;"));
}

#[test]
fn bool_fields_have_no_value_placeholder_in_help() {
    let out = compile_ok("struct S { #[short, long] verbose: bool }");
    assert!(out.contains("\"    -v, --verbose\\n\""));
    assert!(!out.contains("<VERBOSE>"));
}

#[test]
fn debug_print_covers_each_layout() {
    let out = compile_ok(
        "struct Inner {}\nstruct S { a: string, b: i64, c: f64, d: bool, e: Vec<u32>, f: Optional<string>, g: Inner }",
    );
    assert!(out.contains("printf(\"\\ta: %s\\n\", this->a.c_str());"));
    assert!(out.contains("printf(\"\\tb: %d\\n\", this->b);"));
    assert!(out.contains("printf(\"\\tc: %f\\n\", this->c);"));
    assert!(out.contains("printf(\"\\td: %s\\n\", this->d ? \"true\" : \"false\");"));
    assert!(out.contains("printf(\"\\te: [\\n\");"));
    assert!(out.contains("for (size_t i = 0; i != this->e.size(); ++i) {"));
    assert!(out.contains("printf(\"\\t%d,\\n\", this->e[i]);"));
    assert!(out.contains("printf(\"\\t%s,\\n\", this->f[i].c_str());"));
    assert!(out.contains("this->g.print_debug();"));
}

#[test]
fn float_fields_use_float_conversions() {
    let out = compile_ok("struct S { #[long] x: f32, #[long] y: f64 }");
    assert!(out.contains("std::strtof(arg_value, nullptr)"));
    assert!(out.contains("std::strtod(arg_value, nullptr)"));
    assert!(out.contains("float x;"));
    assert!(out.contains("double y;"));
}

#[test]
fn flatten_over_vec_of_struct_is_accepted() {
    let out = compile_ok(
        "struct Item { #[long] id: u64 }\nstruct S { #[flatten] items: Vec<Item> }\n",
    );
    assert!(out.contains("std::vector<Item> items;"));
    assert!(out.contains("res.items.id = arg_res;"));
}

#[test]
fn struct_ref_field_delegates_to_nested_parse() {
    let out = compile_ok(
        "struct Inner { #[long] v: i32 }\nstruct S { #[long] inner: Inner }\n",
    );
    assert!(out.contains("Inner arg_res = Inner::parse(argc - i, args);"));
}

#[test]
fn alias_only_field_is_matched_but_not_in_help_or_options() {
    let out = compile_ok("struct S { #[alias = other] a: Optional<i32> }");
    // the alias spelling is matched by the parse procedure
    assert!(out.contains("strcmp(arg, \"--other\") == 0"));
    // but only short and long forms enter the option list
    assert!(out.contains("for (size_t i = 0; i != 0; ++i) {"));
}

#[test]
fn optional_fields_are_not_mandatory() {
    let out = compile_ok("struct S { #[long] a: Optional<i32>, #[long] b: i32 }");
    assert!(out.contains("const char* mandatory_field_names[] = { \"b\", };"));
}

#[test]
fn optional_value_advances_exactly_once() {
    let out = compile_ok("struct S { #[long] count: Optional<i32> }");
    // one advance for the single optional value, guarded like any
    // other non-string scalar
    assert_eq!(out.matches("++args;").count(), 1);
    assert_eq!(out.matches("++i;").count(), 1);
    assert!(out.contains("if (i == argc || S::is_option(args[0])) {"));
}

#[test]
fn optional_bool_consumes_no_value_token() {
    let out = compile_ok("struct S { #[long] quiet: Optional<bool> }");
    assert!(out.contains("bool arg_res = true;"));
    assert_eq!(out.matches("++args;").count(), 0);
}
