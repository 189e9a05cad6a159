use steam_acf::acf::bundle;
use steam_acf::acf::entry;
use steam_acf::acf::value;
use steam_acf::acf::vdf;
use steam_acf::acf::Bundle;
use steam_acf::acf::Extract;
use steam_acf::acf::Manifest;
use steam_acf::acf::ParseErrorKind;
use steam_acf::acf::PathString;
use steam_acf::acf::ValueExpression;

#[test]
fn complete_acf() {
    let sample = r#"
"AppState"
{
      "appid"		"107100"
        "Universe"		"1"
        "name"		"Bastion"
        "StateFlags"		"4"
        "installdir"		"Bastion"
        "LastUpdated"		"1448139526"
        "UpdateResult"		"0"
        "SizeOnDisk"		"1269269650"
        "buildid"		"322538"
        "LastOwner"		"76561198006959558"
        "BytesToDownload"		"0"
        "BytesDownloaded"		"0"
        "AutoUpdateBehavior"		"0"
        "AllowOtherDownloadsWhileRunning"		"0"
        "UserConfig"
        {
                "Language"		"english"
        }
        "MountedDepots"
        {
                "107106"		"5124896834728316169"
        }
}"#;

    let s = vdf(sample);
    println!("the parsed appstate is: {:?}", s);
    assert!(s.is_ok());
}

#[test]
fn acf_bundle() {
    let simple = r#"{ "key1" "val1" "key2" "val2" }"#;
    assert!(bundle(simple).is_ok());

    let sample = r#"
        {
            "key1"    "value1"
            "key2"    "10"
            "key3"
            {
                "key31"  "value"
                "key32"  "10"
            }
            "key4"    "/home/micael"
        }"#;
    let map = bundle(sample);
    println!("the parsed bundle: {:?}", map);

    assert!(map.is_ok());
}

fn build_sample_manifest() -> Option<Manifest> {
    let sample = r#"
        "simple"
        {
            "key1"    "value1"
            "key2"    "10"
            "key3"
            {
                "key31"  "value"
                "key32"  "10"
            }
            "key4"    "/home/micael"
        }"#;
    vdf(sample).ok()
}

#[test]
fn acf_entry() {
    assert_eq!(
        entry("\"key\" \"value\"").ok().unwrap(),
        ("key".to_string(), ValueExpression::Text("value".to_string()))
    );
}

#[test]
fn acf_value_expression() {
    let text = value("\"value\"");
    let number = value("\"10\"");

    assert_eq!(text.ok().unwrap(), ValueExpression::Text("value".to_string()));
    assert_eq!(number.ok().unwrap(), ValueExpression::Number(10));
}

#[test]
fn manifest_extract() {
    let mut manifest = build_sample_manifest().unwrap();
    assert_eq!(
        <Bundle as Extract<String>>::extract(&manifest.bundle, "key1").unwrap().to_owned(),
        "value1"
    );
    assert_eq!(<Bundle as Extract<i64>>::extract(&manifest.bundle, "key2").unwrap().to_owned(), 10);
    {
        assert!(manifest.bundle.replace("key2", ValueExpression::Number(20)));
    }
    {
        let sub_bundle: &Bundle = manifest.extract("key3").unwrap();
        println!("{:?}", sub_bundle);
    }
    assert_eq!(<Bundle as Extract<i64>>::extract(&manifest.bundle, "key2").unwrap().to_owned(), 20);
}

#[test]
fn number_of_digits_and_sign() {
    assert_eq!(value("\"107100\"").ok().unwrap(), ValueExpression::Number(107100));
    assert_eq!(value("\"-42\"").ok().unwrap(), ValueExpression::Number(-42));
    assert_eq!(value("\"0\"").ok().unwrap(), ValueExpression::Number(0));
}

#[test]
fn number_limits() {
    assert_eq!(
        value("\"9223372036854775807\"").ok().unwrap(),
        ValueExpression::Number(i64::MAX)
    );
    assert_eq!(
        value("\"-9223372036854775808\"").ok().unwrap(),
        ValueExpression::Number(i64::MIN)
    );
    let over = value("\"9223372036854775808\"");
    assert_eq!(over.err().unwrap().kind, ParseErrorKind::IntegerOverflow);
    let under = value("\"-9223372036854775809\"");
    assert_eq!(under.err().unwrap().kind, ParseErrorKind::IntegerOverflow);
}

#[test]
fn text_unless_all_digits() {
    assert_eq!(
        value("\"abc: x-1\"").ok().unwrap(),
        ValueExpression::Text("abc: x-1".to_string())
    );
    // a lone sign has no digits, so it is text
    assert_eq!(value("\"-\"").ok().unwrap(), ValueExpression::Text("-".to_string()));
    // the empty token is text too
    assert_eq!(value("\"\"").ok().unwrap(), ValueExpression::Text(String::new()));
}

#[test]
fn path_when_marked_by_path_characters() {
    assert_eq!(
        value("\"/home/micael\"").ok().unwrap(),
        ValueExpression::Path(PathString("/home/micael".to_string()))
    );
    assert_eq!(
        value("\"a.b\"").ok().unwrap(),
        ValueExpression::Path(PathString("a.b".to_string()))
    );
    // without a path-only character, text wins
    assert_eq!(value("\"abc\"").ok().unwrap(), ValueExpression::Text("abc".to_string()));
}

#[test]
fn nested_bundle_scenario() {
    let b = bundle(r#"{ "a" { "b" "1" } }"#).ok().unwrap();
    let inner: &Bundle = b.extract("a").unwrap();
    let one: &i64 = inner.extract("b").unwrap();
    assert_eq!(*one, 1);
}

#[test]
fn missing_brace_is_syntax_error() {
    let r = bundle(r#"{ "a" "1" "#);
    let e = r.err().unwrap();
    assert_eq!(e.kind, ParseErrorKind::Syntax);
    assert_eq!(e.describe(), "a token the grammar accepts");
}

#[test]
fn empty_bundle_is_rejected() {
    let r = bundle("{}");
    assert_eq!(r.err().unwrap().kind, ParseErrorKind::Syntax);
    let r2 = bundle("{ }");
    assert_eq!(r2.err().unwrap().kind, ParseErrorKind::Syntax);
}

#[test]
fn duplicate_key_last_wins() {
    let b = bundle(r#"{ "k" "1" "k" "2" }"#).ok().unwrap();
    let v: &i64 = b.extract("k").unwrap();
    assert_eq!(*v, 2);
    // the bundle is a mapping: the shadowed entry is gone, not just hidden
    assert_eq!(b.0.len(), 1);
}

#[test]
fn duplicate_key_keeps_one_entry() {
    let m = steam_acf::acf::parse(r#""m" { "k" "1" "k" "2" }"#).ok().unwrap();
    assert_eq!(m.bundle.0.len(), 1);
    let v: &i64 = m.extract("k").unwrap();
    assert_eq!(*v, 2);
}

#[test]
fn end_to_end_scenario() {
    let input = r#""AppState"
{
    "appid"   "107100"
    "name"    "Bastion"
    "UserConfig"
    {
        "Language"  "english"
    }
}"#;
    let m = steam_acf::acf::parse(input).ok().unwrap();
    assert_eq!(m.id(), "AppState");
    assert_eq!(m.bundle.0.len(), 3);
    let appid: &i64 = m.extract("appid").unwrap();
    assert_eq!(*appid, 107100);
    let name: &String = m.extract("name").unwrap();
    assert_eq!(name, "Bastion");
    let config: &Bundle = m.extract("UserConfig").unwrap();
    let language: &String = config.extract("Language").unwrap();
    assert_eq!(language, "english");
}

#[test]
fn extraction_scenario() {
    let m = steam_acf::acf::parse(
        r#""AppState"
{
    "appid"   "107100"
    "name"    "Bastion"
}"#,
    )
    .ok()
    .unwrap();
    assert_eq!(<Bundle as Extract<i64>>::extract(&m.bundle, "appid"), Some(&107100));
    assert_eq!(<Bundle as Extract<String>>::extract(&m.bundle, "appid"), None);
    assert_eq!(<Bundle as Extract<i64>>::extract(&m.bundle, "missing"), None);
}

#[test]
fn reparse_gives_equal_trees() {
    let input = r#""simple"
{
    "a"  "1"
    "b"  "two"
    "c"  { "d" "/opt/x" }
}"#;
    let m1 = steam_acf::acf::parse(input).ok().unwrap();
    let m2 = steam_acf::acf::parse(input).ok().unwrap();
    assert_eq!(m1.id(), m2.id());
    assert_eq!(m1.bundle, m2.bundle);
}

#[test]
fn replace_misses_absent_key() {
    let mut b = bundle(r#"{ "k" "1" }"#).ok().unwrap();
    assert!(!b.replace("other", ValueExpression::Number(9)));
    let v: &i64 = b.extract("k").unwrap();
    assert_eq!(*v, 1);
}

#[test]
fn trailing_text_is_rejected() {
    let r = value("\"10\" ");
    assert_eq!(r.err().unwrap().kind, ParseErrorKind::Syntax);
    let r2 = vdf("\"a\" { \"k\" \"1\" } x");
    assert!(r2.is_err());
}
