use lit_html::codegen::{expand, FieldDecl, StructDecl};
use lit_html::text::{decimal_text, join_texts};
use lit_html::{template, TemplateError};

/// The text the attribute produced for the given parts, written out with the
/// same format string.
fn expected(
    original_struct: &str,
    struct_name: &str,
    args: &str,
    extractor_exprs: &str,
    template_exp: &str,
    execute_exprs: &str,
    c: usize,
) -> String {
    format!(r#"
    {}
    
    struct {}Builder {{
        fn_builder: lit_html::js::JSInvoker,
    }}
    
    impl Default for {}Builder {{
        fn default() -> Self {{
            let mut fn_text = &["function builder(","{}","){{\n","{}","const result = window.LitHtml.html`",{},"`;\nreturn this.storeObject(result);\n}}"].join("");
            {}Builder {{
                fn_builder: lit_html::js::register_function(&fn_text),
            }}
        }}
    }}
    
    impl lit_html::Template for {} {{
        fn execute(&self) -> f64 {{
            let builder = globals::get::<{}Builder>();
            {}
            builder.fn_builder.invoke_{}({})
        }}
    }}
    "#,original_struct,struct_name,struct_name,args,extractor_exprs,template_exp,struct_name,struct_name,struct_name,execute_exprs,c,args)
}

#[test]
fn two_string_fields() {
    let input = "struct Greeting { name : String, title : String }";
    let out = template("\"<h1>${name}</h1>\"", input).unwrap();
    let want = expected(
        input,
        "Greeting",
        "a0,a1,a2,a3",
        "const name = this.readUtf8FromMemory(a0,a1);\nconst title = this.readUtf8FromMemory(a2,a3);",
        "\"<h1>${name}</h1>\"",
        "let a0 = self.name.as_ptr() as u32;\nlet a1 = self.name.len() as u32;\nlet a2 = self.title.as_ptr() as u32;\nlet a3 = self.title.len() as u32;",
        4,
    );
    assert_eq!(out, want);
}

#[test]
fn unit_struct_has_no_arguments() {
    let input = "struct Empty ;";
    let out = template("\"<p></p>\"", input).unwrap();
    assert_eq!(out, expected(input, "Empty", "", "", "\"<p></p>\"", "", 0));
    assert!(out.contains("invoke_0()"));
}

#[test]
fn tuple_struct_has_no_arguments() {
    let input = "struct Pair (String , String) ;";
    let out = template("\"x\"", input).unwrap();
    assert_eq!(out, expected(input, "Pair", "", "", "\"x\"", "", 0));
}

#[test]
fn non_string_field_is_refused() {
    let input = "struct Counter { count : u32 }";
    assert_eq!(template("\"${count}\"", input), Err(TemplateError::UnsupportedType));
    let input = "struct Named { name : std :: string :: String }";
    assert_eq!(template("\"${name}\"", input), Err(TemplateError::UnsupportedType));
}

#[test]
fn refused_even_after_string_fields() {
    let input = "struct Mixed { a : String, b : bool }";
    assert_eq!(template("\"\"", input), Err(TemplateError::UnsupportedType));
}

#[test]
fn malformed_input_reports_parser_message() {
    match template("\"\"", "fn not_a_struct() {}") {
        Err(TemplateError::Malformed(m)) => assert!(!m.is_empty()),
        other => panic!("unexpected {:?}", other),
    }
}

#[test]
fn many_fields_number_arguments_in_decimal() {
    let mut fields = Vec::new();
    let mut src = String::from("struct Wide {");
    for i in 0..6 {
        fields.push(FieldDecl { name: format!("f{}", i), ty: String::from("String") });
        src.push_str(&format!(" f{} : String,", i));
    }
    src.push_str(" }");
    let decl = StructDecl { name: String::from("Wide"), fields: Some(fields) };
    let out = expand("\"t\"", &src, &decl).unwrap();
    let args: Vec<String> = (0..12).map(|k| format!("a{}", k)).collect();
    let ext: Vec<String> = (0..6)
        .map(|i| format!("const f{} = this.readUtf8FromMemory(a{},a{});", i, 2 * i, 2 * i + 1))
        .collect();
    let exe: Vec<String> = (0..6)
        .map(|i| {
            format!(
                "let a{} = self.f{}.as_ptr() as u32;\nlet a{} = self.f{}.len() as u32;",
                2 * i, i, 2 * i + 1, i
            )
        })
        .collect();
    let want = expected(&src, "Wide", &args.join(","), &ext.join("\n"), "\"t\"", &exe.join("\n"), 12);
    assert_eq!(out, want);
    assert!(out.contains("invoke_12(a0,a1,a2,a3,a4,a5,a6,a7,a8,a9,a10,a11)"));
}

#[test]
fn expand_refuses_by_field_type() {
    let decl = StructDecl {
        name: String::from("S"),
        fields: Some(vec![FieldDecl { name: String::from("x"), ty: String::from("i32") }]),
    };
    assert_eq!(expand("\"\"", "struct S { x : i32 }", &decl), Err(TemplateError::UnsupportedType));
}

#[test]
fn expanded_text_starts_with_the_struct() {
    let input = "struct Card { body : String }";
    let out = template("\"${body}\"", input).unwrap();
    assert!(out.starts_with(&format!("\n    {}", input)));
}

#[test]
fn decimal_numerals() {
    assert_eq!(decimal_text(0), "0");
    assert_eq!(decimal_text(7), "7");
    assert_eq!(decimal_text(10), "10");
    assert_eq!(decimal_text(1234567890), "1234567890");
    assert_eq!(decimal_text(usize::MAX), usize::MAX.to_string());
}

#[test]
fn joining() {
    let parts = vec![String::from("a"), String::from("bc"), String::from("")];
    assert_eq!(join_texts(&parts, ", "), "a, bc, ");
    assert_eq!(join_texts(&Vec::new(), ","), "");
    assert_eq!(join_texts(&vec![String::from("x")], ","), "x");
}

#[test]
fn c_string_literal_in_a_type_is_refused_without_panic() {
    let input = "struct S { a : [u8; c\"x\"] }";
    assert_eq!(template("\"\"", input), Err(TemplateError::UnsupportedType));
}

#[test]
fn lexer_error_is_malformed() {
    assert!(matches!(template("\"\"", "struct S { a : String \""), Err(TemplateError::Malformed(_))));
}
