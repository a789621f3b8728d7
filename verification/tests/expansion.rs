use elapsed_printer::error::{ConfigError, ErrorKind, TransformError};
use elapsed_printer::print_option::PrintOption;
use elapsed_printer::print_elapsed;
use proc_macro2::TokenStream;

fn tokens(source: &str) -> TokenStream {
    source.parse().unwrap()
}

fn expand(attr: &str, function: &str) -> String {
    print_elapsed(tokens(attr), tokens(function)).unwrap().to_string()
}

fn canonical(source: &str) -> String {
    tokens(source).to_string()
}

fn characters(source: &str) -> String {
    source.chars().filter(|c| !c.is_whitespace()).collect()
}

#[test]
fn sleeping_function_in_milliseconds() {
    assert_eq!(
        expand("ms, stdout", "fn f(ms: u64) -> u32 { sleep(ms); 100 }"),
        canonical(
            "fn f(ms: u64) -> u32 {
                let start = std::time::Instant::now();
                let result = { sleep(ms); 100 };
                let duration = start.elapsed().as_millis();
                println!(\"{}, {}ms\", \"f\", duration);
                result
            }"
        )
    );
}

fn work(ms: u64) -> u64 {
    ms.wrapping_mul(3)
}

fn rewritten(ms: u64) -> u32 {
    let start = std::time::Instant::now();
    let result = {
        work(ms);
        100
    };
    let duration = start.elapsed().as_millis();
    println!("{}, {}ms", "rewritten", duration);
    result
}

#[test]
fn rewritten_function_gives_what_its_body_gave() {
    assert_eq!(
        expand("ms, stdout", "fn rewritten(ms: u64) -> u32 { work(ms); 100 }"),
        canonical(
            "fn rewritten(ms: u64) -> u32 {
                let start = std::time::Instant::now();
                let result = { work(ms); 100 };
                let duration = start.elapsed().as_millis();
                println!(\"{}, {}ms\", \"rewritten\", duration);
                result
            }"
        )
    );
    assert_eq!(rewritten(10), 100);
    assert_eq!(format!("{}, {}ms", "rewritten", 12u128), "rewritten, 12ms");
}

#[test]
fn bare_attribute_on_a_function() {
    assert_eq!(
        expand("", "fn sleep_millis(millis: u64) { let millis = Duration::from_millis(millis); thread::sleep(millis); }"),
        canonical(
            "fn sleep_millis(millis: u64) {
                let start = std::time::Instant::now();
                let result = { let millis = Duration::from_millis(millis); thread::sleep(millis); };
                let duration = start.elapsed();
                println!(\"{}, {:?}\", \"sleep_millis\", duration);
                result
            }"
        )
    );
}

#[test]
fn public_method_with_receiver() {
    assert_eq!(
        expand("\"both\", us", "pub fn sleep_millis_pub_method(&self, millis: u64) { thread::sleep(millis); }"),
        canonical(
            "pub fn sleep_millis_pub_method(&self, millis: u64) {
                let start = std::time::Instant::now();
                let result = { thread::sleep(millis); };
                let duration = start.elapsed().as_micros();
                println!(\"{}, {}us\", \"sleep_millis_pub_method\", duration);
                eprintln!(\"{}, {}us\", \"sleep_millis_pub_method\", duration);
                result
            }"
        )
    );
}

#[test]
fn gated_constructor() {
    assert_eq!(
        expand("[test_feature, a]", "fn new() -> Self { Self { test_field: 10, pd: PhantomData } }"),
        canonical(
            "fn new() -> Self {
                #[cfg(any(feature = \"test_feature\", feature = \"a\"))]
                {
                    let start = std::time::Instant::now();
                    let result = { Self { test_field: 10, pd: PhantomData } };
                    let duration = start.elapsed();
                    println!(\"{}, {:?}\", \"new\", duration);
                    result
                }
                #[cfg(not(any(feature = \"test_feature\", feature = \"a\")))]
                { Self { test_field: 10, pd: PhantomData } }
            }"
        )
    );
}

#[test]
fn gated_by_three_features() {
    assert_eq!(
        expand(
            "auto, stdout, [\"feature_1\", feature_2, \"feature_3\"]",
            "fn print_when_feature_1_or_2_or_3(millis: u64) { thread::sleep(millis); }"
        ),
        canonical(
            "fn print_when_feature_1_or_2_or_3(millis: u64) {
                #[cfg(any(feature = \"feature_1\", feature = \"feature_2\", feature = \"feature_3\"))]
                {
                    let start = std::time::Instant::now();
                    let result = { thread::sleep(millis); };
                    let duration = start.elapsed();
                    println!(\"{}, {:?}\", \"print_when_feature_1_or_2_or_3\", duration);
                    result
                }
                #[cfg(not(any(feature = \"feature_1\", feature = \"feature_2\", feature = \"feature_3\")))]
                { thread::sleep(millis); }
            }"
        )
    );
}

#[test]
fn qualifiers_are_kept() {
    let declared = "#[doc = \"Reads.\"] #[inline] pub(crate) const unsafe extern \"C\" fn read<'a, T: Copy, const N: usize>(&'a self, at: [usize; N]) -> &'a T";
    let output = print_elapsed(
        tokens("stderr, s"),
        tokens(&format!("{} {{ self.at(at) }}", declared)),
    )
    .unwrap();
    let mut trees: Vec<_> = output.into_iter().collect();
    let body = trees.pop().unwrap();
    let header: TokenStream = trees.into_iter().collect();
    assert_eq!(characters(&header.to_string()), characters(declared));
    assert_eq!(
        body.to_string(),
        canonical(
            "{
                let start = std::time::Instant::now();
                let result = { self.at(at) };
                let duration = start.elapsed().as_secs();
                eprintln!(\"{}, {}s\", \"read\", duration);
                result
            }"
        )
    );
}

#[test]
fn where_clause_is_kept() {
    assert_eq!(
        characters(&expand(
            "s",
            "fn largest<T>(items: &[T]) -> T where T: Ord + Copy { items[0] }"
        )),
        characters(
            "fn largest<T>(items: &[T]) -> T where T: Ord + Copy {
                let start = std::time::Instant::now();
                let result = { items[0] };
                let duration = start.elapsed().as_secs();
                println!(\"{}, {}s\", \"largest\", duration);
                result
            }"
        )
    );
    let (_, fragment) = PrintOption::parse_function(tokens(
        "fn largest<T>(items: &[T]) -> T where T: Ord + Copy { items[0] }",
    ))
    .unwrap();
    assert_eq!(fragment.generics.to_string(), canonical("<T>"));
    assert_eq!(fragment.where_clause.to_string(), canonical("where T: Ord + Copy"));
}

#[test]
fn async_function() {
    assert_eq!(
        expand("ns", "pub async fn fetch(url: &str) -> Vec<u8> { get(url).await }"),
        canonical(
            "pub async fn fetch(url: &str) -> Vec<u8> {
                let start = std::time::Instant::now();
                let result = { get(url).await };
                let duration = start.elapsed().as_nanos();
                println!(\"{}, {}ns\", \"fetch\", duration);
                result
            }"
        )
    );
}

#[test]
fn parts_of_a_parsed_function() {
    let (name, fragment) = PrintOption::parse_function(tokens(
        "#[inline] pub unsafe fn first<T>(items: &[T]) -> &T { &items[0] }",
    ))
    .unwrap();
    assert_eq!(name, "first");
    assert_eq!(fragment.attrs.to_string(), canonical("#[inline]"));
    assert_eq!(fragment.vis.to_string(), "pub");
    assert_eq!(fragment.constness.to_string(), "");
    assert_eq!(fragment.asyncness.to_string(), "");
    assert_eq!(fragment.unsafety.to_string(), "unsafe");
    assert_eq!(fragment.abi.to_string(), "");
    assert_eq!(fragment.ident.to_string(), "first");
    assert_eq!(fragment.generics.to_string(), canonical("<T>"));
    assert_eq!(fragment.inputs.to_string(), canonical("items: &[T]"));
    assert_eq!(fragment.variadic.to_string(), "");
    assert_eq!(fragment.output.to_string(), canonical("-> &T"));
    assert_eq!(fragment.where_clause.to_string(), "");
    assert_eq!(fragment.block.to_string(), canonical("{ &items[0] }"));
}

#[test]
fn parsed_option_holds_settings_and_name() {
    let option = PrintOption::parse(tokens("us, [a]"), tokens("fn run() {}")).unwrap();
    assert_eq!(option.function_name, "run");
    assert_eq!(option.configuration.features, vec!["a".to_string()]);
    assert_eq!(option.function.block.to_string(), canonical("{}"));
}

#[test]
fn what_is_not_a_function_is_refused() {
    for target in ["struct Point { x: u32 }", "fn declared();", "const LIMIT: u32 = 3;", "", "fn one() {} fn two() {}"] {
        match print_elapsed(tokens("ms"), tokens(target)) {
            Err(error) => {
                assert_eq!(error.kind(), ErrorKind::TargetKind);
                assert!(matches!(error, TransformError::TargetKind(_)));
                assert!(!error.message().is_empty());
            }
            Ok(output) => panic!("{} became {}", target, output),
        }
    }
}

#[test]
fn diagnostic_of_the_parser_is_carried() {
    let error = print_elapsed(tokens(""), tokens("struct Point;")).unwrap_err();
    assert_eq!(error, TransformError::TargetKind("expected `fn`".to_string()));
    assert_eq!(error.message(), "expected `fn`");
}

#[test]
fn faulty_attribute_is_refused_first() {
    let error = print_elapsed(tokens("ms, ns"), tokens("struct Point;")).unwrap_err();
    assert_eq!(error, TransformError::Configuration(ConfigError::DuplicateTimeUnit));
    assert_eq!(error.kind(), ErrorKind::DuplicateSetting);
    assert_eq!(error.message(), "Time unit attribute is assigned multiple times.");
    let error = print_elapsed(tokens("stdout stderr"), tokens("fn f() {}")).unwrap_err();
    assert_eq!(error, TransformError::Configuration(ConfigError::AttributeDelimiter));
    assert_eq!(error.kind(), ErrorKind::Delimiter);
}
