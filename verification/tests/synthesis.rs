use elapsed_printer::config::{Configuration, Printer, TimeUnit};
use elapsed_printer::function::FunctionFragment;
use elapsed_printer::print_option::PrintOption;
use elapsed_printer::synth::{feature_gate_token, feature_tests_token};
use proc_macro2::TokenStream;

fn tokens(source: &str) -> TokenStream {
    source.parse().unwrap()
}

fn same(left: &TokenStream, source: &str) {
    assert_eq!(left.to_string(), tokens(source).to_string());
}

fn names(list: &[&str]) -> Vec<String> {
    list.iter().map(|name| name.to_string()).collect()
}

fn method(body: &str) -> FunctionFragment {
    FunctionFragment {
        attrs: tokens("#[inline]"),
        vis: tokens("pub(crate)"),
        constness: tokens(""),
        asyncness: tokens("async"),
        unsafety: tokens("unsafe"),
        abi: tokens(""),
        ident: tokens("get"),
        generics: tokens("<'a, T: Clone>"),
        inputs: tokens("&'a self, index: usize"),
        variadic: tokens(""),
        output: tokens("-> Option<&'a T>"),
        where_clause: tokens("where T: 'a"),
        block: tokens(body),
    }
}

fn option(printer: Printer, time_unit: TimeUnit, features: &[&str]) -> PrintOption {
    PrintOption {
        configuration: Configuration { printer, time_unit, features: names(features) },
        function_name: "get".to_string(),
        function: method("{ self.items.get(index) }"),
    }
}

#[test]
fn duration_statement_of_each_unit() {
    assert_eq!(TimeUnit::Auto.duration_token().to_string(), "let duration = start . elapsed () ;");
    assert_eq!(
        TimeUnit::Ms.duration_token().to_string(),
        "let duration = start . elapsed () . as_millis () ;"
    );
    same(&TimeUnit::Auto.duration_token(), "let duration = start.elapsed();");
    same(&TimeUnit::S.duration_token(), "let duration = start.elapsed().as_secs();");
    same(&TimeUnit::Ms.duration_token(), "let duration = start.elapsed().as_millis();");
    same(&TimeUnit::Us.duration_token(), "let duration = start.elapsed().as_micros();");
    same(&TimeUnit::Ns.duration_token(), "let duration = start.elapsed().as_nanos();");
}

#[test]
fn format_of_each_unit() {
    assert_eq!(TimeUnit::Auto.format_text(), "{}, {:?}");
    assert_eq!(TimeUnit::S.format_text(), "{}, {}s");
    assert_eq!(TimeUnit::Ms.format_text(), "{}, {}ms");
    assert_eq!(TimeUnit::Us.format_text(), "{}, {}us");
    assert_eq!(TimeUnit::Ns.format_text(), "{}, {}ns");
}

#[test]
fn print_statement_to_stdout() {
    let name = "work".to_string();
    assert_eq!(
        TimeUnit::Ms.print_to_stdout_token(&name).to_string(),
        "println ! (\"{}, {}ms\" , \"work\" , duration) ;"
    );
    same(&TimeUnit::Auto.print_to_stdout_token(&name), "println!(\"{}, {:?}\", \"work\", duration);");
    same(&TimeUnit::S.print_to_stdout_token(&name), "println!(\"{}, {}s\", \"work\", duration);");
    same(&TimeUnit::Ms.print_to_stdout_token(&name), "println!(\"{}, {}ms\", \"work\", duration);");
    same(&TimeUnit::Us.print_to_stdout_token(&name), "println!(\"{}, {}us\", \"work\", duration);");
    same(&TimeUnit::Ns.print_to_stdout_token(&name), "println!(\"{}, {}ns\", \"work\", duration);");
}

#[test]
fn print_statement_to_stderr() {
    let name = "work".to_string();
    same(&TimeUnit::Auto.print_to_stderr_token(&name), "eprintln!(\"{}, {:?}\", \"work\", duration);");
    same(&TimeUnit::S.print_to_stderr_token(&name), "eprintln!(\"{}, {}s\", \"work\", duration);");
    same(&TimeUnit::Ms.print_to_stderr_token(&name), "eprintln!(\"{}, {}ms\", \"work\", duration);");
    same(&TimeUnit::Us.print_to_stderr_token(&name), "eprintln!(\"{}, {}us\", \"work\", duration);");
    same(&TimeUnit::Ns.print_to_stderr_token(&name), "eprintln!(\"{}, {}ns\", \"work\", duration);");
}

#[test]
fn function_name_is_a_string_literal() {
    let odd = "r#try".to_string();
    same(&TimeUnit::S.print_to_stdout_token(&odd), "println!(\"{}, {}s\", \"r#try\", duration);");
    let quote = "a\"b".to_string();
    same(&TimeUnit::S.print_to_stdout_token(&quote), "println!(\"{}, {}s\", \"a\\\"b\", duration);");
}

#[test]
fn printer_chooses_the_statements() {
    let name = "work".to_string();
    let unit = TimeUnit::Us;
    assert_eq!(
        Printer::StdOut.print_token(&unit, &name).to_string(),
        unit.print_to_stdout_token(&name).to_string()
    );
    assert_eq!(
        Printer::StdErr.print_token(&unit, &name).to_string(),
        unit.print_to_stderr_token(&name).to_string()
    );
}

#[test]
fn both_prints_to_stdout_then_to_stderr() {
    let name = "work".to_string();
    let both = Printer::Both.print_token(&TimeUnit::Us, &name);
    same(
        &both,
        "println!(\"{}, {}us\", \"work\", duration); eprintln!(\"{}, {}us\", \"work\", duration);",
    );
    assert_eq!(both.clone().into_iter().count(), 8);
    assert_eq!(both.to_string().matches("println").count(), 2);
    assert_eq!(both.to_string().matches("eprintln").count(), 1);
}

#[test]
fn feature_tests_are_separated_by_commas() {
    same(&feature_tests_token(&names(&[])), "");
    same(&feature_tests_token(&names(&["a"])), "feature = \"a\"");
    same(
        &feature_tests_token(&names(&["a", "b", "c"])),
        "feature = \"a\", feature = \"b\", feature = \"c\"",
    );
}

#[test]
fn feature_gates() {
    same(
        &feature_gate_token(&names(&["a", "b"]), true),
        "#[cfg(any(feature = \"a\", feature = \"b\"))]",
    );
    same(
        &feature_gate_token(&names(&["a", "b"]), false),
        "#[cfg(not(any(feature = \"a\", feature = \"b\")))]",
    );
}

#[test]
fn body_without_features_is_always_timed() {
    let output = option(Printer::StdOut, TimeUnit::Auto, &[]).new_token_stream();
    same(
        &output,
        "#[inline] pub(crate) async unsafe fn get<'a, T: Clone>(&'a self, index: usize) -> Option<&'a T> where T: 'a {
            let start = std::time::Instant::now();
            let result = { self.items.get(index) };
            let duration = start.elapsed();
            println!(\"{}, {:?}\", \"get\", duration);
            result
        }",
    );
    assert!(!output.to_string().contains("cfg"));
}

#[test]
fn body_with_features_has_both_candidates() {
    let output = option(Printer::StdErr, TimeUnit::Ns, &["feature_x"]).new_token_stream();
    same(
        &output,
        "#[inline] pub(crate) async unsafe fn get<'a, T: Clone>(&'a self, index: usize) -> Option<&'a T> where T: 'a {
            #[cfg(any(feature = \"feature_x\"))]
            {
                let start = std::time::Instant::now();
                let result = { self.items.get(index) };
                let duration = start.elapsed().as_nanos();
                eprintln!(\"{}, {}ns\", \"get\", duration);
                result
            }
            #[cfg(not(any(feature = \"feature_x\")))]
            { self.items.get(index) }
        }",
    );
}

#[test]
fn both_printers_in_the_body() {
    let output = option(Printer::Both, TimeUnit::Ms, &[]).new_token_stream();
    same(
        &output,
        "#[inline] pub(crate) async unsafe fn get<'a, T: Clone>(&'a self, index: usize) -> Option<&'a T> where T: 'a {
            let start = std::time::Instant::now();
            let result = { self.items.get(index) };
            let duration = start.elapsed().as_millis();
            println!(\"{}, {}ms\", \"get\", duration);
            eprintln!(\"{}, {}ms\", \"get\", duration);
            result
        }",
    );
}

#[test]
fn only_the_body_changes() {
    let declared = "#[inline] pub(crate) async unsafe fn get<'a, T: Clone>(&'a self, index: usize) -> Option<&'a T> where T: 'a";
    for features in [&[][..], &["a", "b"][..]] {
        let output = option(Printer::Both, TimeUnit::S, features).new_token_stream();
        let mut trees: Vec<_> = output.into_iter().collect();
        let last = trees.pop().unwrap();
        let header: TokenStream = trees.into_iter().collect();
        same(&header, declared);
        match last {
            proc_macro2::TokenTree::Group(group) => {
                assert_eq!(group.delimiter(), proc_macro2::Delimiter::Brace)
            }
            other => panic!("the body is {}", other),
        }
    }
}
