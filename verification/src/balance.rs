//! Credit balances: how a provider's answer is judged and how it is written.

use vstd::prelude::*;
use vstd::string::*;

use crate::text;

verus! {

#[derive(Clone, Copy, Debug, PartialEq, Eq, Structural)]
pub enum Provider {
    DeepSeek,
    ProxyApi,
    OpenRouter,
}

impl Provider {
    /// The name on the provider's line.
    pub open spec fn label_chars(self) -> Seq<char> {
        match self {
            Provider::DeepSeek => "DEEPSEEK"@,
            Provider::ProxyApi => "PROXYAPI"@,
            Provider::OpenRouter => "OPENROUTER"@,
        }
    }

    /// The name on the provider's line.
    pub fn label(self) -> (s: &'static str)
        ensures
            s@ == self.label_chars(),
    {
        match self {
            Provider::DeepSeek => "DEEPSEEK",
            Provider::ProxyApi => "PROXYAPI",
            Provider::OpenRouter => "OPENROUTER",
        }
    }

    /// Where the provider answers for its balance.
    pub fn url(self) -> (s: &'static str)
        ensures
            s@ == match self {
                Provider::DeepSeek => "https://api.deepseek.com/user/balance"@,
                Provider::ProxyApi => "https://api.proxyapi.ru/proxyapi/balance"@,
                Provider::OpenRouter => "https://openrouter.ai/api/v1/credits"@,
            },
    {
        match self {
            Provider::DeepSeek => "https://api.deepseek.com/user/balance",
            Provider::ProxyApi => "https://api.proxyapi.ru/proxyapi/balance",
            Provider::OpenRouter => "https://openrouter.ai/api/v1/credits",
        }
    }
}

/// An amount of money, rounded to hundredths of its unit.
#[derive(Clone, Copy, Debug, PartialEq, Eq, Structural)]
pub struct Amount {
    /// Whether the amount was below zero before it was rounded.
    pub negative: bool,
    /// Its size in hundredths.
    pub cents: u64,
}

/// One entry of a DeepSeek answer.
#[derive(Debug)]
pub struct BalanceInfo {
    /// The balance, if its text is a number.
    pub amount: Option<Amount>,
    pub currency: String,
}

/// What a provider answered.
#[derive(Debug)]
pub enum Payload {
    DeepSeek(Vec<BalanceInfo>),
    ProxyApi(Amount),
    /// Credits bought less credits used.
    OpenRouter(Amount),
}

/// How a balance is written: thousands apart, two decimals, and a minus sign
/// only if there is something to take away.
pub open spec fn balance_chars(a: Amount) -> Seq<char> {
    let sign = if a.negative && a.cents > 0 {
        "-"@
    } else {
        ""@
    };
    sign + text::grouped(text::decimal((a.cents / 100) as nat)) + "."@ + text::two_digits(
        (a.cents % 100) as int,
    )
}

/// How a balance is written.
pub fn format_balance(a: Amount) -> (s: String)
    ensures
        s@ == balance_chars(a),
{
    let sign: &'static str = if a.negative && a.cents > 0 {
        "-"
    } else {
        ""
    };
    sign.to_owned().concat(text::grouped_text(a.cents / 100).as_str()).concat(".").concat(
        text::two_digit_text(a.cents % 100).as_str(),
    )
}

/// The sign of a currency, or its code if it has none here.
pub open spec fn symbol_chars(currency: Seq<char>) -> Seq<char> {
    if currency == "USD"@ {
        "$"@
    } else if currency == "EUR"@ {
        "\u{20AC}"@
    } else if currency == "RUB"@ {
        "\u{20BD}"@
    } else if currency == "CNY"@ {
        "\u{00A5}"@
    } else if currency == "GBP"@ {
        "\u{00A3}"@
    } else if currency == "JPY"@ {
        "\u{00A5}"@
    } else if currency == "KRW"@ {
        "\u{20A9}"@
    } else {
        currency
    }
}

/// The sign of a currency, or its code if it has none here.
pub fn currency_symbol(currency: &str) -> (s: &str)
    ensures
        s@ == symbol_chars(currency@),
{
    if text::same_text(currency, "USD") {
        "$"
    } else if text::same_text(currency, "EUR") {
        "\u{20AC}"
    } else if text::same_text(currency, "RUB") {
        "\u{20BD}"
    } else if text::same_text(currency, "CNY") {
        "\u{00A5}"
    } else if text::same_text(currency, "GBP") {
        "\u{00A3}"
    } else if text::same_text(currency, "JPY") {
        "\u{00A5}"
    } else if text::same_text(currency, "KRW") {
        "\u{20A9}"
    } else {
        currency
    }
}

/// A balance with its currency; only the ruble trails.
pub open spec fn money_chars(amount: Amount, currency: Seq<char>) -> Seq<char> {
    if currency == "RUB"@ {
        balance_chars(amount) + " "@ + symbol_chars(currency)
    } else {
        symbol_chars(currency) + " "@ + balance_chars(amount)
    }
}

/// A balance with its currency.
pub fn format_money(amount: Amount, currency: &str) -> (s: String)
    ensures
        s@ == money_chars(amount, currency@),
{
    let sym = currency_symbol(currency);
    let number = format_balance(amount);
    if text::same_text(currency, "RUB") {
        number.concat(" ").concat(sym)
    } else {
        sym.to_owned().concat(" ").concat(number.as_str())
    }
}

/// The value of the header that carries a token.
pub fn authorization(token: &str) -> (s: String)
    ensures
        s@ == "Bearer "@ + token@,
{
    "Bearer ".to_owned().concat(token)
}

/// What is shown when no request can be made at all.
pub fn client_error(reason: &str) -> (s: String)
    ensures
        s@ == "Client build: "@ + reason@,
{
    "Client build: ".to_owned().concat(reason)
}

/// Whether a status says that the token was refused.
pub open spec fn is_refused(status: u16) -> bool {
    status == 401 || status == 403
}

/// Whether a status says that the request succeeded.
pub open spec fn is_success(status: u16) -> bool {
    200 <= status < 300
}

/// Why a request that was sent gets no further, if it does not: `sent` holds
/// the status of the answer, or what went wrong.
pub open spec fn sent_error(sent: Result<u16, Seq<char>>) -> Option<Seq<char>> {
    match sent {
        Err(e) => Some("Request: "@ + e),
        Ok(status) => if is_refused(status) {
            Some("Invalid token"@)
        } else {
            None
        },
    }
}

/// Why an answer gets no further, if it does not: `body` holds its text, or
/// what went wrong while reading it.
pub open spec fn read_error(status: u16, body: Result<Seq<char>, Seq<char>>) -> Option<Seq<char>> {
    match body {
        Err(e) => Some("Read: "@ + e),
        Ok(b) => if text::contains_text(b, "Invalid API Key"@) {
            Some("Invalid token"@)
        } else if !is_success(status) {
            Some("HTTP "@ + text::decimal(status as nat))
        } else {
            None
        },
    }
}

/// What a payload says.
pub enum PayloadModel {
    DeepSeek(Seq<(Option<Amount>, Seq<char>)>),
    ProxyApi(Amount),
    OpenRouter(Amount),
}

impl View for Payload {
    type V = PayloadModel;

    open spec fn view(&self) -> PayloadModel {
        match *self {
            Payload::DeepSeek(infos) => PayloadModel::DeepSeek(
                Seq::new(infos@.len(), |i: int| (infos@[i].amount, infos@[i].currency@)),
            ),
            Payload::ProxyApi(a) => PayloadModel::ProxyApi(a),
            Payload::OpenRouter(a) => PayloadModel::OpenRouter(a),
        }
    }
}

/// The balance and currency of a provider's answer, or why there is none:
/// `parsed` holds what the text of the answer says, or what is wrong with it.
pub open spec fn parsed_balance(
    provider: Provider,
    parsed: Result<PayloadModel, Seq<char>>,
) -> Result<(Amount, Seq<char>), Seq<char>> {
    match (provider, parsed) {
        (_, Err(e)) => Err("Parse: "@ + e),
        (Provider::DeepSeek, Ok(PayloadModel::DeepSeek(infos))) => if infos.len() == 0 {
            Err("Empty response"@)
        } else {
            match infos[0].0 {
                None => Err("Balance parse"@),
                Some(amount) => Ok((amount, infos[0].1)),
            }
        },
        (Provider::ProxyApi, Ok(PayloadModel::ProxyApi(amount))) => Ok((amount, "RUB"@)),
        (Provider::OpenRouter, Ok(PayloadModel::OpenRouter(amount))) => Ok((amount, "USD"@)),
        _ => Err("Parse: not an answer of this provider"@),
    }
}

/// A result with its texts as characters.
pub open spec fn chars_err<T>(r: Result<T, String>) -> Result<T, Seq<char>> {
    match r {
        Ok(v) => Ok(v),
        Err(e) => Err(e@),
    }
}

/// A result with its texts as characters.
pub open spec fn chars_both(r: Result<String, String>) -> Result<Seq<char>, Seq<char>> {
    match r {
        Ok(s) => Ok(s@),
        Err(e) => Err(e@),
    }
}

/// A result with its parts as what they say.
pub open spec fn payload_model(r: Result<Payload, String>) -> Result<PayloadModel, Seq<char>> {
    match r {
        Ok(p) => Ok(p@),
        Err(e) => Err(e@),
    }
}

/// A balance with its currency as characters.
pub open spec fn money_model(r: Result<(Amount, String), String>) -> Result<
    (Amount, Seq<char>),
    Seq<char>,
> {
    match r {
        Ok(m) => Ok((m.0, m.1@)),
        Err(e) => Err(e@),
    }
}

/// First step of a request: `sent` holds the status of the answer, or what went
/// wrong. On success the body is to be read.
pub fn fetch_sent(sent: Result<u16, String>) -> (r: Result<u16, String>)
    ensures
        chars_err(r) == match sent_error(chars_err(sent)) {
            Some(e) => Err(e),
            None => chars_err(sent),
        },
{
    match sent {
        Err(e) => Err("Request: ".to_owned().concat(e.as_str())),
        Ok(status) => if status == 401 || status == 403 {
            Err("Invalid token".to_owned())
        } else {
            Ok(status)
        },
    }
}

/// Second step of a request: `body` holds the text of the answer, or what went
/// wrong while reading it. On success the text is to be parsed.
///
/// ProxyAPI answers 200 to a bad token and says so in the text only.
pub fn fetch_read(status: u16, body: Result<String, String>) -> (r: Result<String, String>)
    ensures
        chars_both(r) == match read_error(status, chars_both(body)) {
            Some(e) => Err(e),
            None => chars_both(body),
        },
{
    match body {
        Err(e) => Err("Read: ".to_owned().concat(e.as_str())),
        Ok(b) => if text::contains(b.as_str(), "Invalid API Key") {
            Err("Invalid token".to_owned())
        } else if !(200 <= status && status < 300) {
            Err("HTTP ".to_owned().concat(text::decimal_text(status as u64).as_str()))
        } else {
            Ok(b)
        },
    }
}

/// Last step of a request: `parsed` holds what the text of the answer says, or
/// what is wrong with it. ProxyAPI answers in rubles and OpenRouter in dollars.
pub fn fetch_parsed(provider: Provider, parsed: Result<Payload, String>) -> (r: Result<
    (Amount, String),
    String,
>)
    ensures
        money_model(r) == parsed_balance(provider, payload_model(parsed)),
        r matches Ok(m) ==> provider == Provider::ProxyApi ==> m.1@ == "RUB"@,
        r matches Ok(m) ==> provider == Provider::OpenRouter ==> m.1@ == "USD"@,
        provider == Provider::DeepSeek ==> (parsed matches Ok(Payload::DeepSeek(infos)) ==> (
        infos@.len() > 0 ==> (infos@[0].amount matches Some(a) ==> (r matches Ok(m) && m.0 == a
            && m.1@ == infos@[0].currency@)))),
        provider == Provider::ProxyApi ==> (parsed matches Ok(Payload::ProxyApi(a)) ==> (r matches Ok(
            m,
        ) && m.0 == a)),
        provider == Provider::OpenRouter ==> (parsed matches Ok(Payload::OpenRouter(a)) ==> (
        r matches Ok(m) && m.0 == a)),
{
    match (provider, parsed) {
        (_, Err(e)) => Err("Parse: ".to_owned().concat(e.as_str())),
        (Provider::DeepSeek, Ok(Payload::DeepSeek(infos))) => {
            if infos.len() == 0 {
                return Err("Empty response".to_owned());
            }
            match infos[0].amount {
                None => Err("Balance parse".to_owned()),
                Some(amount) => Ok((amount, infos[0].currency.clone())),
            }
        },
        (Provider::ProxyApi, Ok(Payload::ProxyApi(amount))) => Ok((amount, "RUB".to_owned())),
        (Provider::OpenRouter, Ok(Payload::OpenRouter(amount))) => Ok((amount, "USD".to_owned())),
        _ => Err("Parse: not an answer of this provider".to_owned()),
    }
}

/// The outcome of a whole request. `body` is what reading the answer gives and
/// `parsed` what parsing its text gives; neither matters if the request gets no
/// further before that.
pub open spec fn fetched(
    provider: Provider,
    sent: Result<u16, Seq<char>>,
    body: Result<Seq<char>, Seq<char>>,
    parsed: Result<PayloadModel, Seq<char>>,
) -> Result<(Amount, Seq<char>), Seq<char>> {
    match sent_error(sent) {
        Some(e) => Err(e),
        None => match read_error(sent->Ok_0, body) {
            Some(e) => Err(e),
            None => parsed_balance(provider, parsed),
        },
    }
}

/// The outcome of a whole request, all its steps in order. `body` and `parsed`
/// do not matter if the request gets no further before that.
pub fn fetch_outcome(
    provider: Provider,
    sent: Result<u16, String>,
    body: Result<String, String>,
    parsed: Result<Payload, String>,
) -> (r: Result<(Amount, String), String>)
    ensures
        money_model(r) == fetched(
            provider,
            chars_err(sent),
            chars_both(body),
            payload_model(parsed),
        ),
        r matches Ok(m) ==> provider == Provider::ProxyApi ==> m.1@ == "RUB"@,
        r matches Ok(m) ==> provider == Provider::OpenRouter ==> m.1@ == "USD"@,
{
    match fetch_sent(sent) {
        Err(e) => Err(e),
        Ok(status) => match fetch_read(status, body) {
            Err(e) => Err(e),
            Ok(_) => fetch_parsed(provider, parsed),
        },
    }
}

/// A provider's line.
pub open spec fn line_chars(
    provider: Provider,
    outcome: Result<(Amount, Seq<char>), Seq<char>>,
) -> Seq<char> {
    provider.label_chars() + ": "@ + match outcome {
        Ok(m) => money_chars(m.0, m.1),
        Err(e) => e,
    }
}

/// Whole display line for one provider. Errors render as text: the overlay is
/// the only place where they can appear.
pub fn fetch_line(provider: Provider, outcome: Result<(Amount, String), String>) -> (s: String)
    ensures
        s@ == line_chars(provider, money_model(outcome)),
{
    let head = provider.label().to_owned().concat(": ");
    match outcome {
        Ok(m) => {
            let money = format_money(m.0, m.1.as_str());
            head.concat(money.as_str())
        },
        Err(e) => head.concat(e.as_str()),
    }
}

/// A provider's line before its first answer.
pub fn loading_line(provider: Provider) -> (s: String)
    ensures
        s@ == provider.label_chars() + ": LOADING..."@,
{
    provider.label().to_owned().concat(": LOADING...")
}

/// A refused token is reported as such, whether the provider says so by its
/// status or, under any other status, in the text of its answer.
pub proof fn law_refused_tokens_are_reported(
    provider: Provider,
    status: u16,
    body: Result<Seq<char>, Seq<char>>,
    parsed: Result<PayloadModel, Seq<char>>,
)
    requires
        is_refused(status) || (body matches Ok(b) && text::contains_text(b, "Invalid API Key"@)),
    ensures
        fetched(provider, Ok(status), body, parsed) == Err::<(Amount, Seq<char>), Seq<char>>(
            "Invalid token"@,
        ),
{
}

/// A balance is shown only for a successful answer that could be read and
/// parsed.
pub proof fn law_balances_come_from_successful_answers(
    provider: Provider,
    sent: Result<u16, Seq<char>>,
    body: Result<Seq<char>, Seq<char>>,
    parsed: Result<PayloadModel, Seq<char>>,
)
    requires
        fetched(provider, sent, body, parsed) is Ok,
    ensures
        sent matches Ok(status) && is_success(status),
        body is Ok,
        parsed is Ok,
        fetched(provider, sent, body, parsed) == parsed_balance(provider, parsed),
{
}

/// Whatever comes of a request, the provider keeps its line: it starts with the
/// provider's name, and after it stands the balance or the reason why there is
/// none.
pub proof fn law_a_provider_keeps_its_line(
    provider: Provider,
    outcome: Result<(Amount, Seq<char>), Seq<char>>,
)
    ensures
        ({
            let head = provider.label_chars() + ": "@;
            let line = line_chars(provider, outcome);
            &&& line.take(head.len() as int) == head
            &&& line.skip(head.len() as int) == match outcome {
                Ok(m) => money_chars(m.0, m.1),
                Err(e) => e,
            }
        }),
{
    let head = provider.label_chars() + ": "@;
    let line = line_chars(provider, outcome);
    assert(line.take(head.len() as int) =~= head);
    assert(line.skip(head.len() as int) =~= match outcome {
        Ok(m) => money_chars(m.0, m.1),
        Err(e) => e,
    });
}

/// The number that the digits in a text write, whatever stands between them.
pub open spec fn digits_value(s: Seq<char>) -> nat
    decreases s.len(),
{
    if s.len() == 0 {
        0
    } else {
        let before = digits_value(s.drop_last());
        if '0' <= s.last() <= '9' {
            10 * before + (s.last() as int - '0' as int) as nat
        } else {
            before
        }
    }
}

proof fn lemma_value_of_digit(s: Seq<char>, d: int)
    requires
        0 <= d < 10,
    ensures
        digits_value(s.push(text::digit_char(d))) == 10 * digits_value(s) + d,
{
    assert(s.push(text::digit_char(d)).drop_last() =~= s);
}

proof fn lemma_value_of_separator(s: Seq<char>, c: char)
    requires
        !('0' <= c <= '9'),
    ensures
        digits_value(s.push(c)) == digits_value(s),
{
    assert(s.push(c).drop_last() =~= s);
}

proof fn lemma_value_after_no_digits(a: Seq<char>, b: Seq<char>)
    requires
        digits_value(a) == 0,
    ensures
        digits_value(a + b) == digits_value(b),
    decreases b.len(),
{
    if b.len() == 0 {
        assert(a + b =~= a);
    } else {
        lemma_value_after_no_digits(a, b.drop_last());
        assert((a + b).drop_last() =~= a + b.drop_last());
    }
}

/// The digits of a number in decimal write that number.
pub proof fn lemma_value_of_decimal(n: nat)
    ensures
        digits_value(text::decimal(n)) == n,
    decreases n,
{
    if n < 10 {
        lemma_value_of_digit(Seq::empty(), n as int);
        assert(Seq::<char>::empty().push(text::digit_char(n as int)) =~= text::decimal(n));
    } else {
        lemma_value_of_decimal(n / 10);
        lemma_value_of_digit(text::decimal(n / 10), (n % 10) as int);
    }
}

proof fn lemma_value_of_grouped(n: nat)
    ensures
        digits_value(text::grouped(text::decimal(n))) == n,
        text::grouped(text::decimal(n)).len() > 0,
        '0' <= text::grouped(text::decimal(n))[0] <= '9',
    decreases n,
{
    if n < 1000 {
        text::lemma_decimal_short(n);
        lemma_value_of_decimal(n);
        lemma_first_is_a_digit(n);
    } else {
        text::lemma_decimal_thousands(n);
        lemma_value_of_grouped(n / 1000);
        let all = text::decimal(n);
        let high = text::decimal(n / 1000);
        lemma_first_is_a_digit(n / 1000);
        assert(all.take(all.len() - 3) =~= high);
        let head = text::grouped(high).push(' ');
        let (d2, d1, d0) = (n as int / 100 % 10, n as int / 10 % 10, n as int % 10);
        lemma_value_of_separator(text::grouped(high), ' ');
        lemma_value_of_digit(head, d2);
        lemma_value_of_digit(head.push(text::digit_char(d2)), d1);
        lemma_value_of_digit(head.push(text::digit_char(d2)).push(text::digit_char(d1)), d0);
        assert(text::grouped(all) =~= head.push(text::digit_char(d2)).push(
            text::digit_char(d1),
        ).push(text::digit_char(d0)));
        assert(n as int == 1000 * (n as int / 1000) + 100 * d2 + 10 * d1 + d0);
    }
}

proof fn lemma_first_is_a_digit(n: nat)
    ensures
        text::decimal(n).len() > 0,
        '0' <= text::decimal(n)[0] <= '9',
    decreases n,
{
    if n >= 10 {
        lemma_first_is_a_digit(n / 10);
    }
}

/// The digits of a written balance are its hundredths, so nothing is lost or
/// added by grouping and splitting them; it ends in a point and two digits; and
/// it starts with a minus sign exactly if it is below zero after rounding.
pub proof fn law_written_balance_reads_back(a: Amount)
    ensures
        digits_value(balance_chars(a)) == a.cents,
        balance_chars(a).len() >= 4,
        balance_chars(a)[balance_chars(a).len() - 3] == '.',
        (balance_chars(a)[0] == '-') == (a.negative && a.cents > 0),
{
    reveal_strlit("-");
    reveal_strlit("");
    reveal_strlit(".");
    let sign = if a.negative && a.cents > 0 {
        "-"@
    } else {
        ""@
    };
    let whole = text::grouped(text::decimal((a.cents / 100) as nat));
    let cents = (a.cents % 100) as int;
    lemma_value_of_grouped((a.cents / 100) as nat);
    reveal_with_fuel(digits_value, 2);
    assert(digits_value(sign) == 0);
    lemma_value_after_no_digits(sign, whole);
    let head = sign + whole;
    lemma_value_of_separator(head, '.');
    lemma_value_of_digit(head.push('.'), cents / 10 % 10);
    lemma_value_of_digit(head.push('.').push(text::digit_char(cents / 10 % 10)), cents % 10);
    assert(balance_chars(a) =~= head.push('.').push(text::digit_char(cents / 10 % 10)).push(
        text::digit_char(cents % 10),
    ));
}

/// Two balances are written alike only if they are the same to the hundredth.
pub proof fn law_different_balances_are_written_differently(a: Amount, b: Amount)
    requires
        balance_chars(a) == balance_chars(b),
    ensures
        a.cents == b.cents,
        a.cents > 0 ==> a.negative == b.negative,
{
    law_written_balance_reads_back(a);
    law_written_balance_reads_back(b);
}

/// A DeepSeek answer whose first entry is a number gives exactly that entry,
/// its amount and its currency, whatever entries follow it.
pub proof fn law_the_first_entry_is_the_balance(
    infos: Seq<(Option<Amount>, Seq<char>)>,
    amount: Amount,
)
    requires
        infos.len() > 0,
        infos[0].0 == Some(amount),
    ensures
        parsed_balance(Provider::DeepSeek, Ok(PayloadModel::DeepSeek(infos))) == Ok::<
            (Amount, Seq<char>),
            Seq<char>,
        >((amount, infos[0].1)),
{
}

/// Two DeepSeek answers with the same first entry give the same balance.
pub proof fn law_later_entries_do_not_matter(
    first: (Option<Amount>, Seq<char>),
    others: Seq<(Option<Amount>, Seq<char>)>,
)
    ensures
        parsed_balance(Provider::DeepSeek, Ok(PayloadModel::DeepSeek(seq![first] + others)))
            == parsed_balance(Provider::DeepSeek, Ok(PayloadModel::DeepSeek(seq![first]))),
{
}

/// ProxyAPI's amount is one of rubles and OpenRouter's one of dollars, each
/// exactly as the answer carries it.
pub proof fn law_plain_answers_are_the_balance(amount: Amount)
    ensures
        parsed_balance(Provider::ProxyApi, Ok(PayloadModel::ProxyApi(amount))) == Ok::<
            (Amount, Seq<char>),
            Seq<char>,
        >((amount, seq!['R', 'U', 'B'])),
        parsed_balance(Provider::OpenRouter, Ok(PayloadModel::OpenRouter(amount))) == Ok::<
            (Amount, Seq<char>),
            Seq<char>,
        >((amount, seq!['U', 'S', 'D'])),
{
    reveal_strlit("RUB");
    reveal_strlit("USD");
    assert("RUB"@ =~= seq!['R', 'U', 'B']);
    assert("USD"@ =~= seq!['U', 'S', 'D']);
}

/// A request that went well shows its balance: any status from 200 to 299, any
/// text that does not complain about the key, and a payload of the provider's
/// own kind with an amount in it.
pub proof fn law_good_answers_show_their_balance(
    status: u16,
    body: Seq<char>,
    amount: Amount,
    currency: Seq<char>,
    others: Seq<(Option<Amount>, Seq<char>)>,
)
    requires
        200 <= status <= 299,
        forall|a: Seq<char>, b: Seq<char>| body != #[trigger] (a + "Invalid API Key"@ + b),
    ensures
        fetched(
            Provider::DeepSeek,
            Ok(status),
            Ok(body),
            Ok(PayloadModel::DeepSeek(seq![(Some(amount), currency)] + others)),
        ) == Ok::<(Amount, Seq<char>), Seq<char>>((amount, currency)),
        fetched(Provider::ProxyApi, Ok(status), Ok(body), Ok(PayloadModel::ProxyApi(amount)))
            == Ok::<(Amount, Seq<char>), Seq<char>>((amount, "RUB"@)),
        fetched(Provider::OpenRouter, Ok(status), Ok(body), Ok(PayloadModel::OpenRouter(amount)))
            == Ok::<(Amount, Seq<char>), Seq<char>>((amount, "USD"@)),
{
    text::law_found_text_stands_between_the_rest(
        body,
        "Invalid API Key"@,
        Seq::empty(),
        Seq::empty(),
    );
}

/// Each thing that can go wrong gives its own reason, and the first one counts:
/// sending, a refused token, reading, the status, and the payload.
pub proof fn law_the_first_failure_is_the_reason(
    provider: Provider,
    status: u16,
    reason: Seq<char>,
    body: Result<Seq<char>, Seq<char>>,
    parsed: Result<PayloadModel, Seq<char>>,
)
    ensures
        fetched(provider, Err(reason), body, parsed) == Err::<(Amount, Seq<char>), Seq<char>>(
            "Request: "@ + reason,
        ),
        status == 401 || status == 403 ==> fetched(provider, Ok(status), body, parsed) == Err::<
            (Amount, Seq<char>),
            Seq<char>,
        >("Invalid token"@),
        status != 401 && status != 403 ==> fetched(provider, Ok(status), Err(reason), parsed)
            == Err::<(Amount, Seq<char>), Seq<char>>("Read: "@ + reason),
{
}

/// An answer that complains about the key is a refused token, whatever its
/// status and wherever in its text it says so.
pub proof fn law_a_complaint_about_the_key_is_a_refused_token(
    provider: Provider,
    status: u16,
    before: Seq<char>,
    after: Seq<char>,
    parsed: Result<PayloadModel, Seq<char>>,
)
    ensures
        fetched(provider, Ok(status), Ok(before + "Invalid API Key"@ + after), parsed) == Err::<
            (Amount, Seq<char>),
            Seq<char>,
        >("Invalid token"@),
{
    text::law_found_text_stands_between_the_rest(
        before + "Invalid API Key"@ + after,
        "Invalid API Key"@,
        before,
        after,
    );
}

/// An answer that does not complain about the key fails by its status unless
/// that is from 200 to 299, and the status is named.
pub proof fn law_other_statuses_are_named(
    provider: Provider,
    status: u16,
    body: Seq<char>,
    parsed: Result<PayloadModel, Seq<char>>,
)
    requires
        status < 200 || status > 299,
        status != 401,
        status != 403,
        forall|a: Seq<char>, b: Seq<char>| body != #[trigger] (a + "Invalid API Key"@ + b),
    ensures
        fetched(provider, Ok(status), Ok(body), parsed) == Err::<(Amount, Seq<char>), Seq<char>>(
            "HTTP "@ + text::decimal(status as nat),
        ),
{
    text::law_found_text_stands_between_the_rest(
        body,
        "Invalid API Key"@,
        Seq::empty(),
        Seq::empty(),
    );
}

/// A payload without a balance says why: it is no answer, it has no entry, or
/// its first entry is no number.
pub proof fn law_payloads_without_a_balance_say_why(
    provider: Provider,
    reason: Seq<char>,
    currency: Seq<char>,
    others: Seq<(Option<Amount>, Seq<char>)>,
)
    ensures
        parsed_balance(provider, Err(reason)) == Err::<(Amount, Seq<char>), Seq<char>>(
            "Parse: "@ + reason,
        ),
        parsed_balance(Provider::DeepSeek, Ok(PayloadModel::DeepSeek(Seq::empty()))) == Err::<
            (Amount, Seq<char>),
            Seq<char>,
        >("Empty response"@),
        parsed_balance(
            Provider::DeepSeek,
            Ok(PayloadModel::DeepSeek(seq![(None::<Amount>, currency)] + others)),
        ) == Err::<(Amount, Seq<char>), Seq<char>>("Balance parse"@),
{
}

/// A payload of another provider's kind never passes for a balance.
pub proof fn law_payloads_of_other_providers_are_refused(provider: Provider, payload: PayloadModel)
    requires
        provider == Provider::DeepSeek ==> !(payload is DeepSeek),
        provider == Provider::ProxyApi ==> !(payload is ProxyApi),
        provider == Provider::OpenRouter ==> !(payload is OpenRouter),
    ensures
        parsed_balance(provider, Ok(payload)) is Err,
{
}

/// Seven currencies have a sign; every other one is shown by its code.
pub proof fn law_currencies_have_one_sign_or_their_code(currency: Seq<char>)
    ensures
        symbol_chars(seq!['U', 'S', 'D']) == seq!['$'],
        symbol_chars(seq!['E', 'U', 'R']) == seq!['\u{20AC}'],
        symbol_chars(seq!['R', 'U', 'B']) == seq!['\u{20BD}'],
        symbol_chars(seq!['C', 'N', 'Y']) == seq!['\u{00A5}'],
        symbol_chars(seq!['G', 'B', 'P']) == seq!['\u{00A3}'],
        symbol_chars(seq!['J', 'P', 'Y']) == seq!['\u{00A5}'],
        symbol_chars(seq!['K', 'R', 'W']) == seq!['\u{20A9}'],
        symbol_chars(currency) != currency ==> {
            ||| currency == seq!['U', 'S', 'D']
            ||| currency == seq!['E', 'U', 'R']
            ||| currency == seq!['R', 'U', 'B']
            ||| currency == seq!['C', 'N', 'Y']
            ||| currency == seq!['G', 'B', 'P']
            ||| currency == seq!['J', 'P', 'Y']
            ||| currency == seq!['K', 'R', 'W']
        },
{
    reveal_strlit("USD");
    reveal_strlit("EUR");
    reveal_strlit("RUB");
    reveal_strlit("CNY");
    reveal_strlit("GBP");
    reveal_strlit("JPY");
    reveal_strlit("KRW");
    reveal_strlit("$");
    reveal_strlit("\u{20AC}");
    reveal_strlit("\u{20BD}");
    reveal_strlit("\u{00A5}");
    reveal_strlit("\u{00A3}");
    reveal_strlit("\u{20A9}");
    assert(seq!['U', 'S', 'D'] =~= "USD"@);
    assert(seq!['E', 'U', 'R'] =~= "EUR"@);
    assert(seq!['R', 'U', 'B'] =~= "RUB"@);
    assert(seq!['C', 'N', 'Y'] =~= "CNY"@);
    assert(seq!['G', 'B', 'P'] =~= "GBP"@);
    assert(seq!['J', 'P', 'Y'] =~= "JPY"@);
    assert(seq!['K', 'R', 'W'] =~= "KRW"@);
    assert("USD"@[0] == 'U' && "EUR"@[0] == 'E' && "RUB"@[0] == 'R' && "CNY"@[0] == 'C');
    assert("GBP"@[0] == 'G' && "JPY"@[0] == 'J' && "KRW"@[0] == 'K');
    assert(symbol_chars("USD"@) =~= seq!['$']);
    assert(symbol_chars("EUR"@) =~= seq!['\u{20AC}']);
    assert(symbol_chars("RUB"@) =~= seq!['\u{20BD}']);
    assert(symbol_chars("CNY"@) =~= seq!['\u{00A5}']);
    assert(symbol_chars("GBP"@) =~= seq!['\u{00A3}']);
    assert(symbol_chars("JPY"@) =~= seq!['\u{00A5}']);
    assert(symbol_chars("KRW"@) =~= seq!['\u{20A9}']);
}

/// An amount and its currency stand one space apart; rubles stand behind their
/// amount and every other currency in front of it.
pub proof fn law_only_the_ruble_trails(amount: Amount, currency: Seq<char>)
    ensures
        ({
            let number = balance_chars(amount);
            let sign = symbol_chars(currency);
            let written = money_chars(amount, currency);
            &&& written.len() == number.len() + 1 + sign.len()
            &&& currency == seq!['R', 'U', 'B'] ==> {
                &&& written.take(number.len() as int) == number
                &&& written[number.len() as int] == ' '
                &&& written.skip(number.len() as int + 1) == sign
            }
            &&& currency != seq!['R', 'U', 'B'] ==> {
                &&& written.take(sign.len() as int) == sign
                &&& written[sign.len() as int] == ' '
                &&& written.skip(sign.len() as int + 1) == number
            }
        }),
{
    reveal_strlit("RUB");
    reveal_strlit(" ");
    assert(seq!['R', 'U', 'B'] =~= "RUB"@);
    let number = balance_chars(amount);
    let sign = symbol_chars(currency);
    let written = money_chars(amount, currency);
    if currency == "RUB"@ {
        assert(written.take(number.len() as int) =~= number);
        assert(written.skip(number.len() as int + 1) =~= sign);
    } else {
        assert(written.take(sign.len() as int) =~= sign);
        assert(written.skip(sign.len() as int + 1) =~= number);
    }
}

/// Counted from the right, a written balance has two digits, a point, and then
/// digits with a space after every third one; all that may stand in front of
/// them is the minus sign. Its whole part has no zero in front unless it is
/// zero itself.
pub proof fn law_written_balance_is_grouped(a: Amount)
    ensures
        ({
            let s = balance_chars(a);
            let first: int = if a.negative && a.cents > 0 {
                1
            } else {
                0
            };
            &&& s.len() >= first + 4
            &&& forall|k: int|
                0 <= k < s.len() - first ==> match #[trigger] s[s.len() - 1 - k] {
                    '.' => k == 2,
                    ' ' => k > 2 && (k - 3) % 4 == 3,
                    c => '0' <= c <= '9' && k != 2 && (k > 2 ==> (k - 3) % 4 != 3),
                }
            &&& s[first] == '0' ==> s.len() == first + 4
        }),
{
    reveal_strlit("-");
    reveal_strlit("");
    reveal_strlit(".");
    let n = (a.cents / 100) as nat;
    let digits = text::decimal(n);
    let whole = text::grouped(digits);
    let s = balance_chars(a);
    let first: int = if a.negative && a.cents > 0 {
        1
    } else {
        0
    };
    text::law_decimal_digits_add_up(n);
    text::law_groups_are_of_three(digits);
    text::law_two_digits_add_up((a.cents % 100) as int);
    lemma_value_of_grouped(n);
    assert(s.len() == first + whole.len() + 3);
    assert forall|k: int| 0 <= k < s.len() - first implies match #[trigger] s[s.len() - 1 - k] {
        '.' => k == 2,
        ' ' => k > 2 && (k - 3) % 4 == 3,
        c => '0' <= c <= '9' && k != 2 && (k > 2 ==> (k - 3) % 4 != 3),
    } by {
        if k > 2 {
            let j = k - 3;
            assert(s[s.len() - 1 - k] == whole[whole.len() - 1 - j]);
            assert(j - j / 4 < digits.len() || j % 4 == 3);
            if j % 4 != 3 {
                let c = digits[digits.len() - 1 - (j - j / 4)];
                assert('0' <= c <= '9');
            }
        }
    }
    assert(s[first] == whole[0]);
    let top = whole.len() - 1;
    assert(whole[whole.len() - 1 - top] == if top % 4 == 3 {
        ' '
    } else {
        digits[digits.len() - 1 - (top - top / 4)]
    });
    assert(top - top / 4 == digits.len() - 1);
    assert(whole[0] == digits[0]);
}

} // verus!
