use promql_parser::util::number::{number_form, NumberForm};

fn value(s: &str) -> Result<f64, String> {
    match number_form(s)? {
        NumberForm::Integer(i) => Ok(i as f64),
        NumberForm::Decimal { text, base, power } => text
            .parse::<f64>()
            .map(|v| v * (base as f64).powi(power as i32))
            .map_err(|_| format!("ParseFloatError. {s} can't be parsed into f64")),
    }
}

#[test]
fn test_parse_str_radix() {
    assert_eq!(value("1K").unwrap(), 1000_f64);
    assert_eq!(value("1Ki").unwrap(), 1024_f64);
    assert_eq!(value("1M").unwrap(), 1000_f64.powi(2));
    assert_eq!(value("1Mi").unwrap(), 1024_f64.powi(2));
    assert_eq!(value("1G").unwrap(), 1000_f64.powi(3));
    assert_eq!(value("1Gi").unwrap(), 1024_f64.powi(3));
    assert_eq!(value("1T").unwrap(), 1000_f64.powi(4));
    assert_eq!(value("1Ti").unwrap(), 1024_f64.powi(4));
    assert_eq!(value("10_20_30.10_2").unwrap(), 102030.102_f64);
    assert_eq!(value("0x2f").unwrap(), 47_f64);
    assert_eq!(value("+0x2f").unwrap(), 47_f64);
    assert_eq!(value("- 0x2f ").unwrap(), -47_f64);
    assert_eq!(value("017").unwrap(), 15_f64);
    assert_eq!(value("-017").unwrap(), -15_f64);
    assert_eq!(value("+017").unwrap(), 15_f64);
    assert_eq!(value("2023.0128").unwrap(), 2023.0128_f64);
    assert_eq!(value("-4.14").unwrap(), -4.14_f64);
    assert_eq!(value("+3.718").unwrap(), 3.718_f64);
    assert_eq!(value("-0.14").unwrap(), -0.14_f64);
    assert_eq!(value("+0.718").unwrap(), 0.718_f64);
    assert_eq!(value("0.718").unwrap(), 0.718_f64);
    assert_eq!(value("089").unwrap(), 89_f64);
    assert_eq!(value("+089").unwrap(), 89_f64);
    assert_eq!(value("-089").unwrap(), -89_f64);
    assert_eq!(value("+0").unwrap(), 0_f64);
    assert_eq!(value("-0").unwrap(), 0_f64);
    assert_eq!(value("0").unwrap(), 0_f64);

    assert!(value("rust").is_err());
    assert!(value("0xgolang").is_err());
    assert!(value("0clojure").is_err());
    assert!(value("0x2024Ti").is_err());
}

#[test]
fn test_number_forms() {
    assert_eq!(number_form("0x2f"), Ok(NumberForm::Integer(47)));
    assert_eq!(number_form("-017"), Ok(NumberForm::Integer(-15)));
    assert_eq!(
        number_form("1Ki"),
        Ok(NumberForm::Decimal { text: "1".to_string(), base: 1024, power: 1 })
    );
    assert_eq!(
        number_form(" 1_000 "),
        Ok(NumberForm::Decimal { text: "1000".to_string(), base: 1, power: 0 })
    );
    assert_eq!(
        number_form("0xgolang"),
        Err("ParseFloatError. 0xgolang can't be parsed into i64".to_string())
    );
    assert_eq!(number_form("0x7fffffffffffffff"), Ok(NumberForm::Integer(i64::MAX)));
    assert!(number_form("0x8000000000000000").is_err());
    assert_eq!(number_form("-0x8000000000000000"), Err(
        "ParseFloatError. -0x8000000000000000 can't be parsed into i64".to_string()
    ));
    assert_eq!(number_form("0x-5"), Ok(NumberForm::Integer(-5)));
}
