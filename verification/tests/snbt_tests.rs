use steel::literal::{float_literal_ok, parse_int_in};
use steel::snbt::{
    extract_compound_string, parse_snbt_compound, NbtArgument, NbtCompound, NbtList, NbtTag,
    SnbtParser,
};
use steel::text::chars_of;

fn get<'a>(c: &'a NbtCompound, key: &str) -> &'a NbtTag {
    c.get(key).expect("key present")
}

fn chars(s: &str) -> Vec<char> {
    s.chars().collect()
}

#[test]
fn summon_style_compound() {
    let c = parse_snbt_compound("{Health:20.0f,NoAI:1b}").unwrap();
    assert_eq!(c.len(), 2);
    assert!(matches!(get(&c, "Health"), NbtTag::Float(s) if s == "20.0"));
    assert!(matches!(get(&c, "NoAI"), NbtTag::Byte(1)));
}

#[test]
fn empty_compounds() {
    assert_eq!(parse_snbt_compound("{}").unwrap().len(), 0);
    assert_eq!(parse_snbt_compound("  {   }  ").unwrap().len(), 0);
}

#[test]
fn not_a_compound() {
    assert!(parse_snbt_compound("x").is_none());
    assert!(parse_snbt_compound("").is_none());
    assert!(parse_snbt_compound("{").is_none());
    assert!(parse_snbt_compound("{a:1").is_none());
}

#[test]
fn malformed_entries_are_refused() {
    assert!(parse_snbt_compound("{a:}").is_none());
    assert!(parse_snbt_compound("{a 1}").is_none());
    assert!(parse_snbt_compound("{:1}").is_none());
    assert!(parse_snbt_compound("{a:{b:1 c:2}}").is_none());
    assert!(parse_snbt_compound("{a:[1 2]}").is_none());
    assert!(parse_snbt_compound("{a:\"open}").is_none());
}

#[test]
fn reading_stops_after_an_entry_without_comma() {
    let c = parse_snbt_compound("{a:1 b:2}").unwrap();
    assert_eq!(c.len(), 1);
    assert!(matches!(get(&c, "a"), NbtTag::Int(1)));
    let c = parse_snbt_compound("{a:1,}").unwrap();
    assert_eq!(c.len(), 1);
}

#[test]
fn primitives_by_suffix() {
    let c = parse_snbt_compound(
        "{b:5b,s:7s,l:9L,f:1.5F,d:2.5d,dot:3.0,i:42,neg:-3,t:true,f2:FALSE,word:abc,big:300b}",
    )
    .unwrap();
    assert!(matches!(get(&c, "b"), NbtTag::Byte(5)));
    assert!(matches!(get(&c, "s"), NbtTag::Short(7)));
    assert!(matches!(get(&c, "l"), NbtTag::Long(9)));
    assert!(matches!(get(&c, "f"), NbtTag::Float(s) if s == "1.5"));
    assert!(matches!(get(&c, "d"), NbtTag::Double(s) if s == "2.5"));
    assert!(matches!(get(&c, "dot"), NbtTag::Double(s) if s == "3.0"));
    assert!(matches!(get(&c, "i"), NbtTag::Int(42)));
    assert!(matches!(get(&c, "neg"), NbtTag::Int(-3)));
    assert!(matches!(get(&c, "t"), NbtTag::Byte(1)));
    assert!(matches!(get(&c, "f2"), NbtTag::Byte(0)));
    assert!(matches!(get(&c, "word"), NbtTag::String(s) if s == "abc"));
    assert!(matches!(get(&c, "big"), NbtTag::String(s) if s == "300b"));
}

#[test]
fn out_of_range_ints_are_strings() {
    let c = parse_snbt_compound("{a:2147483648,b:-2147483648,c:1.2.3}").unwrap();
    assert!(matches!(get(&c, "a"), NbtTag::String(s) if s == "2147483648"));
    assert!(matches!(get(&c, "b"), NbtTag::Int(i32::MIN)));
    assert!(matches!(get(&c, "c"), NbtTag::String(s) if s == "1.2.3"));
}

#[test]
fn quoted_keys_and_strings() {
    let c = parse_snbt_compound("{\"a b\":\"x\\\"y\", name : \"Bob\"}").unwrap();
    assert!(matches!(get(&c, "a b"), NbtTag::String(s) if s == "x\"y"));
    assert!(matches!(get(&c, "name"), NbtTag::String(s) if s == "Bob"));
}

#[test]
fn nested_compounds_and_lists() {
    let c = parse_snbt_compound("{inner:{x:1,y:{}},list:[1,2,3],empty:[],ds:[1.5d,2.5d]}").unwrap();
    match get(&c, "inner") {
        NbtTag::Compound(inner) => {
            assert!(matches!(get(inner, "x"), NbtTag::Int(1)));
            assert!(matches!(get(inner, "y"), NbtTag::Compound(y) if y.len() == 0));
        }
        _ => panic!("inner is a compound"),
    }
    assert!(matches!(get(&c, "list"), NbtTag::List(NbtList::Int(v)) if v == &vec![1, 2, 3]));
    assert!(matches!(get(&c, "empty"), NbtTag::List(NbtList::Empty)));
    match get(&c, "ds") {
        NbtTag::List(NbtList::Double(v)) => assert_eq!(v, &vec!["1.5".to_string(), "2.5".to_string()]),
        _ => panic!("a double list"),
    }
}

#[test]
fn list_keeps_elements_of_the_first_type() {
    let c = parse_snbt_compound("{m:[1, 2b, 3], s:[a, 1]}").unwrap();
    assert!(matches!(get(&c, "m"), NbtTag::List(NbtList::Int(v)) if v == &vec![1, 3]));
    assert!(matches!(get(&c, "s"), NbtTag::List(NbtList::String(v)) if v == &vec!["a".to_string()]));
}

#[test]
fn typed_arrays() {
    let c = parse_snbt_compound("{b:[B;1b,2b,300],i:[I;1,2b],l:[L;1L,2],e:[I;]}").unwrap();
    assert!(matches!(get(&c, "b"), NbtTag::ByteArray(v) if v == &vec![1u8, 2u8, 44u8]));
    assert!(matches!(get(&c, "i"), NbtTag::IntArray(v) if v == &vec![1, 2]));
    assert!(matches!(get(&c, "l"), NbtTag::LongArray(v) if v == &vec![1i64, 2i64]));
    assert!(matches!(get(&c, "e"), NbtTag::IntArray(v) if v.is_empty()));
}

#[test]
fn duplicate_keys_are_both_kept_and_the_first_is_found() {
    let c = parse_snbt_compound("{a:1,a:2}").unwrap();
    assert_eq!(c.len(), 2);
    assert!(matches!(get(&c, "a"), NbtTag::Int(1)));
}

#[test]
fn parser_primitives() {
    let input = chars("  key:value");
    let mut p = SnbtParser::new(&input);
    assert!(!p.is_empty());
    assert_eq!(p.peek(), Some(' '));
    p.skip_whitespace();
    assert_eq!(p.peek(), Some('k'));
    assert_eq!(p.parse_key().as_deref(), Some("key"));
    assert!(p.consume(':'));
    assert!(!p.consume(':'));
    assert_eq!(p.parse_unquoted_string().as_deref(), Some("value"));
    assert!(p.is_empty());
    assert_eq!(p.peek(), None);
}

#[test]
fn parser_quoted_string_needs_its_quotes() {
    let input = chars("\"ab\\\\c\"");
    let mut p = SnbtParser::new(&input);
    assert_eq!(p.parse_quoted_string().as_deref(), Some("ab\\c"));
    let input = chars("abc");
    let mut p = SnbtParser::new(&input);
    assert!(p.parse_quoted_string().is_none());
    let input = chars("\"abc");
    let mut p = SnbtParser::new(&input);
    assert!(p.parse_quoted_string().is_none());
}

#[test]
fn extract_compound_string_finds_the_closing_brace() {
    assert_eq!(extract_compound_string(&chars("{a:{b:1}} rest")), Some((9, 5)));
    assert_eq!(extract_compound_string(&chars("{s:\"}\"}x")), Some((7, 1)));
    assert_eq!(extract_compound_string(&chars("{a:1")), None);
    assert_eq!(extract_compound_string(&chars("a{}")), None);
}

#[test]
fn nbt_argument_uses_the_arguments_the_compound_spans() {
    let args = ["{CustomName:\"Big", "Bob\"}", "rest"];
    let (rest, c) = NbtArgument.parse(&args).unwrap();
    assert_eq!(rest, &["rest"]);
    assert!(matches!(get(&c, "CustomName"), NbtTag::String(s) if s == "Big Bob"));

    let args = ["{a:1}"];
    let (rest, c) = NbtArgument.parse(&args).unwrap();
    assert!(rest.is_empty());
    assert_eq!(c.len(), 1);

    let args: [&str; 0] = [];
    assert!(NbtArgument.parse(&args).is_none());
    assert!(NbtArgument.parse(&["a"]).is_none());
    assert!(NbtArgument.parse(&["{a:}"]).is_none());
}

#[test]
fn chars_of_keeps_every_char() {
    assert_eq!(chars_of("aé😀"), vec!['a', 'é', '😀']);
}

#[test]
fn unicode_whitespace_and_letters() {
    let c = parse_snbt_compound("\u{3000}{\u{a0}naïve:1}\u{2003}").unwrap();
    assert!(matches!(get(&c, "naïve"), NbtTag::Int(1)));
}

#[test]
fn integer_literals() {
    let t = |s: &str, lo: i64, hi: i64| parse_int_in(&chars(s), lo, hi);
    assert_eq!(t("127", -128, 127), Some(127));
    assert_eq!(t("128", -128, 127), None);
    assert_eq!(t("-128", -128, 127), Some(-128));
    assert_eq!(t("+5", -128, 127), Some(5));
    assert_eq!(t("-", -128, 127), None);
    assert_eq!(t("", -128, 127), None);
    assert_eq!(t("1a", -128, 127), None);
    assert_eq!(t("-9223372036854775808", i64::MIN, i64::MAX), Some(i64::MIN));
    assert_eq!(t("9223372036854775808", i64::MIN, i64::MAX), None);
}

#[test]
fn float_literals() {
    let ok = |s: &str| float_literal_ok(&chars(s));
    for s in ["1", "1.", ".5", "-1.5", "+2", "1e5", "1E+5", "2.5e-3", "inf", "-Infinity", "NaN"] {
        assert!(ok(s), "{s}");
        assert!(s.parse::<f64>().is_ok(), "{s}");
    }
    for s in ["", ".", "e5", "1e", "1e+", "--1", "1.2.3", "infinit", "0x10", "1_0"] {
        assert!(!ok(s), "{s}");
        assert!(s.parse::<f64>().is_err(), "{s}");
    }
}

#[test]
fn unicode_whitespace_between_tokens() {
    let c = parse_snbt_compound("{a:\u{3000}1,\u{2028}b:\u{a0}2b}").unwrap();
    assert_eq!(c.len(), 2);
    assert!(matches!(get(&c, "a"), NbtTag::Int(1)));
    assert!(matches!(get(&c, "b"), NbtTag::Byte(2)));
    for c in ['\t', '\n', '\u{b}', '\u{c}', '\r', ' ', '\u{85}', '\u{a0}', '\u{1680}', '\u{2000}', '\u{200a}', '\u{2028}', '\u{2029}', '\u{202f}', '\u{205f}', '\u{3000}'] {
        assert!(c.is_whitespace());
        let text = format!("{{k:{c}5}}");
        assert!(matches!(get(&parse_snbt_compound(&text).unwrap(), "k"), NbtTag::Int(5)));
    }
    assert!(parse_snbt_compound("{k:\u{200b}5}").map_or(true, |c| !matches!(c.get("k"), Some(NbtTag::Int(5)))));
}
