use balance_overlay::balance::{
    authorization, client_error, currency_symbol, fetch_line, fetch_outcome, fetch_parsed, fetch_read,
    fetch_sent,
    format_balance, format_money, loading_line, Amount, BalanceInfo, Payload, Provider,
};

/// Rounds once, in cents.
fn amount(value: f64) -> Amount {
    Amount { negative: value < 0.0, cents: (value.abs() * 100.0).round() as i64 as u64 }
}

#[test]
fn balance_formatting() {
    assert_eq!(format_balance(amount(12.999)), "13.00"); // not "12.100"
    assert_eq!(format_balance(amount(12.34)), "12.34");
    assert_eq!(format_balance(amount(1234567.5)), "1 234 567.50");
    assert_eq!(format_balance(amount(-42.5)), "-42.50");
    assert_eq!(format_balance(amount(-0.001)), "0.00");
    assert_eq!(format_money(amount(5.0), "USD"), "$ 5.00");
    assert_eq!(format_money(amount(5.0), "RUB"), "5.00 \u{20BD}");
}

#[test]
fn balances_of_every_length_are_grouped() {
    assert_eq!(format_balance(Amount { negative: false, cents: 0 }), "0.00");
    assert_eq!(format_balance(Amount { negative: false, cents: 7 }), "0.07");
    assert_eq!(format_balance(Amount { negative: false, cents: 99_999 }), "999.99");
    assert_eq!(format_balance(Amount { negative: false, cents: 100_000 }), "1 000.00");
    assert_eq!(format_balance(Amount { negative: true, cents: 100_000_001 }), "-1 000 000.01");
    assert_eq!(
        format_balance(Amount { negative: false, cents: u64::MAX }),
        "184 467 440 737 095 516.15"
    );
}

#[test]
fn digits_of_a_written_balance_are_its_cents() {
    for cents in [0u64, 5, 42, 100, 12_345, 999_999, 1_000_000, 98_765_432_109] {
        let text = format_balance(Amount { negative: true, cents });
        let digits: String = text.chars().filter(|c| c.is_ascii_digit()).collect();
        assert_eq!(digits.parse::<u64>(), Ok(cents));
        assert_eq!(text.starts_with('-'), cents > 0);
        assert_eq!(text.as_bytes()[text.len() - 3], b'.');
    }
}

#[test]
fn currencies_have_their_signs() {
    assert_eq!(currency_symbol("USD"), "$");
    assert_eq!(currency_symbol("EUR"), "\u{20AC}");
    assert_eq!(currency_symbol("RUB"), "\u{20BD}");
    assert_eq!(currency_symbol("CNY"), "\u{00A5}");
    assert_eq!(currency_symbol("GBP"), "\u{00A3}");
    assert_eq!(currency_symbol("JPY"), "\u{00A5}");
    assert_eq!(currency_symbol("KRW"), "\u{20A9}");
    assert_eq!(currency_symbol("CHF"), "CHF");
    assert_eq!(currency_symbol("usd"), "usd");
    assert_eq!(format_money(amount(1.5), "CHF"), "CHF 1.50");
    assert_eq!(format_money(amount(-1.5), "EUR"), "\u{20AC} -1.50");
}

#[test]
fn providers_have_a_label_and_an_address() {
    assert_eq!(Provider::DeepSeek.label(), "DEEPSEEK");
    assert_eq!(Provider::ProxyApi.label(), "PROXYAPI");
    assert_eq!(Provider::OpenRouter.label(), "OPENROUTER");
    assert_eq!(Provider::DeepSeek.url(), "https://api.deepseek.com/user/balance");
    assert_eq!(Provider::ProxyApi.url(), "https://api.proxyapi.ru/proxyapi/balance");
    assert_eq!(Provider::OpenRouter.url(), "https://openrouter.ai/api/v1/credits");
    assert_eq!(authorization("abc"), "Bearer abc");
    assert_eq!(client_error("no TLS"), "Client build: no TLS");
    assert_eq!(loading_line(Provider::ProxyApi), "PROXYAPI: LOADING...");
}

#[test]
fn refused_tokens_are_told_apart() {
    assert_eq!(fetch_sent(Ok(401)), Err("Invalid token".to_string()));
    assert_eq!(fetch_sent(Ok(403)), Err("Invalid token".to_string()));
    assert_eq!(fetch_sent(Ok(402)), Ok(402));
    assert_eq!(fetch_sent(Ok(200)), Ok(200));
    assert_eq!(fetch_sent(Err("timed out".to_string())), Err("Request: timed out".to_string()));
}

#[test]
fn answers_are_judged_by_text_and_status() {
    let ok = |s: &str| Ok::<String, String>(s.to_string());
    let err = |s: &str| Err::<String, String>(s.to_string());
    assert_eq!(fetch_read(200, ok("{}")), ok("{}"));
    assert_eq!(fetch_read(299, ok("")), ok(""));
    assert_eq!(fetch_read(200, ok("{\"error\":\"Invalid API Key\"}")), err("Invalid token"));
    assert_eq!(fetch_read(500, ok("x Invalid API Key")), err("Invalid token"));
    assert_eq!(fetch_read(200, ok("Invalid API Ke")), ok("Invalid API Ke"));
    assert_eq!(fetch_read(199, ok("{}")), err("HTTP 199"));
    assert_eq!(fetch_read(300, ok("{}")), err("HTTP 300"));
    assert_eq!(fetch_read(503, ok("{}")), err("HTTP 503"));
    assert_eq!(fetch_read(200, err("cut off")), err("Read: cut off"));
}

#[test]
fn payloads_become_balances() {
    let five = Amount { negative: false, cents: 500 };
    let info = |amount: Option<Amount>, currency: &str| BalanceInfo {
        amount,
        currency: currency.to_string(),
    };
    let (deepseek, proxyapi, openrouter) =
        (Provider::DeepSeek, Provider::ProxyApi, Provider::OpenRouter);
    assert_eq!(fetch_parsed(proxyapi, Ok(Payload::ProxyApi(five))), Ok((five, "RUB".to_string())));
    assert_eq!(
        fetch_parsed(openrouter, Ok(Payload::OpenRouter(five))),
        Ok((five, "USD".to_string()))
    );
    assert_eq!(
        fetch_parsed(
            deepseek,
            Ok(Payload::DeepSeek(vec![info(Some(five), "CNY"), info(None, "USD")]))
        ),
        Ok((five, "CNY".to_string()))
    );
    assert_eq!(
        fetch_parsed(
            deepseek,
            Ok(Payload::DeepSeek(vec![info(None, "CNY"), info(Some(five), "USD")]))
        ),
        Err("Balance parse".to_string())
    );
    assert_eq!(
        fetch_parsed(deepseek, Ok(Payload::DeepSeek(vec![]))),
        Err("Empty response".to_string())
    );
    for provider in [deepseek, proxyapi, openrouter] {
        assert_eq!(
            fetch_parsed(provider, Err("expected value".to_string())),
            Err("Parse: expected value".to_string())
        );
    }
    for (provider, payload) in [
        (deepseek, Payload::ProxyApi(five)),
        (proxyapi, Payload::OpenRouter(five)),
        (openrouter, Payload::DeepSeek(vec![info(Some(five), "CNY")])),
    ] {
        assert_eq!(
            fetch_parsed(provider, Ok(payload)),
            Err("Parse: not an answer of this provider".to_string())
        );
    }
}

#[test]
fn requests_end_at_the_first_thing_that_goes_wrong() {
    let five = Amount { negative: false, cents: 500 };
    let ok = |s: &str| Ok::<String, String>(s.to_string());
    let err = |s: &str| Err::<(Amount, String), String>(s.to_string());
    let run = |sent: Result<u16, String>, body: Result<String, String>| {
        fetch_outcome(Provider::ProxyApi, sent, body, Ok(Payload::ProxyApi(five)))
    };
    assert_eq!(run(Ok(200), ok("{}")), Ok((five, "RUB".to_string())));
    assert_eq!(run(Err("down".to_string()), ok("{}")), err("Request: down"));
    assert_eq!(run(Ok(401), Err("cut off".to_string())), err("Invalid token"));
    assert_eq!(run(Ok(500), Err("cut off".to_string())), err("Read: cut off"));
    assert_eq!(run(Ok(200), ok("Invalid API Key")), err("Invalid token"));
    assert_eq!(run(Ok(503), ok("{}")), err("HTTP 503"));
    assert_eq!(
        fetch_outcome(Provider::OpenRouter, Ok(200), ok("{}"), Ok(Payload::OpenRouter(five))),
        Ok((five, "USD".to_string()))
    );
    assert_eq!(
        fetch_outcome(Provider::DeepSeek, Ok(200), ok("{"), Err("EOF".to_string())),
        err("Parse: EOF")
    );
}

#[test]
fn a_failed_provider_keeps_its_line() {
    assert_eq!(
        fetch_line(Provider::OpenRouter, Err("Invalid token".to_string())),
        "OPENROUTER: Invalid token"
    );
    let outcome = Ok((Amount { negative: false, cents: 123_456 }, "RUB".to_string()));
    assert_eq!(fetch_line(Provider::ProxyApi, outcome), "PROXYAPI: 1 234.56 \u{20BD}");
}
