//! What the screen shows: the title, the footer, the search field's title and
//! cursor, the list's lines, and the detail panel's lines and scrolling.
//!
//! Text is built here as lines of styled spans; drawing them with ratatui is
//! left to the program around the library.
use vstd::prelude::*;
use vstd::view::View as HasView;

use crate::app::{item_views, model_for, selected_item, App, ListItem, ListItemView, View};
use crate::data::{catalogue_keys_distinct, value_for, Model, Provider};
use crate::app::{clamped_scroll, scroll_in_range};
use crate::input::{visual_cursor_of, visual_scroll_of};
use crate::text::{push_char, string_of};

use ratatui::text::Span as TermSpan;

verus! {

/// The look of a span of text.
#[derive(Debug, Clone, Copy, PartialEq, Eq, Structural)]
pub enum Tone {
    /// The terminal's default style.
    Plain,
    /// White.
    Text,
    /// Cyan.
    Accent,
    /// Bold cyan.
    AccentBold,
    /// Dark gray.
    Muted,
    /// Bold green.
    Label,
    /// Bold yellow.
    Heading,
    /// Green.
    Good,
    /// Red.
    Bad,
}

/// A piece of text in one tone.
#[derive(Debug)]
pub struct Span {
    pub text: String,
    pub tone: Tone,
}

/// A line of text: spans side by side.
#[derive(Debug)]
pub struct Line {
    pub spans: Vec<Span>,
}

impl HasView for Span {
    type V = (Seq<char>, Tone);

    open spec fn view(&self) -> (Seq<char>, Tone) {
        (self.text@, self.tone)
    }
}

impl HasView for Line {
    type V = Seq<(Seq<char>, Tone)>;

    open spec fn view(&self) -> Seq<(Seq<char>, Tone)> {
        self.spans@.map_values(|s: Span| s@)
    }
}

/// The texts and tones of a sequence of lines.
pub open spec fn lines_view(lines: Seq<Line>) -> Seq<Seq<(Seq<char>, Tone)>> {
    lines.map_values(|l: Line| l@)
}

/// A line of one span.
pub fn line1(text: String, tone: Tone) -> (r: Line)
    ensures
        r@ == seq![(text@, tone)],
{
    let spans = vec![Span { text, tone }];
    let r = Line { spans };
    assert(r@ =~= seq![(r.spans@[0].text@, tone)]);
    r
}

/// A line of two spans.
pub fn line2(a: String, ta: Tone, b: String, tb: Tone) -> (r: Line)
    ensures
        r@ == seq![(a@, ta), (b@, tb)],
{
    let spans = vec![Span { text: a, tone: ta }, Span { text: b, tone: tb }];
    let r = Line { spans };
    assert(r@ =~= seq![(r.spans@[0].text@, ta), (r.spans@[1].text@, tb)]);
    r
}

/// A line of three spans.
pub fn line3(a: String, ta: Tone, b: String, tb: Tone, c: String, tc: Tone) -> (r: Line)
    ensures
        r@ == seq![(a@, ta), (b@, tb), (c@, tc)],
{
    let spans = vec![Span { text: a, tone: ta }, Span { text: b, tone: tb }, Span { text: c, tone: tc }];
    let r = Line { spans };
    assert(r@ =~= seq![(r.spans@[0].text@, ta), (r.spans@[1].text@, tb), (r.spans@[2].text@, tc)]);
    r
}

/// Appends `line` to `lines`.
pub fn push_line(lines: &mut Vec<Line>, line: Line)
    ensures
        lines_view(final(lines)@) == lines_view(old(lines)@).push(line@),
{
    let ghost before = lines@;
    lines.push(line);
    assert(lines_view(lines@) =~= lines_view(before).push(line@));
}

/// A check mark for true, a cross for false.
pub fn bool_check(value: bool) -> (r: &'static str)
    ensures
        r@ == (if value { "✓"@ } else { "✗"@ }),
{
    if value {
        "✓"
    } else {
        "✗"
    }
}

/// The decimal digit for `d` (below ten).
pub open spec fn digit_char(d: nat) -> char {
    if d == 0 { '0' }
    else if d == 1 { '1' }
    else if d == 2 { '2' }
    else if d == 3 { '3' }
    else if d == 4 { '4' }
    else if d == 5 { '5' }
    else if d == 6 { '6' }
    else if d == 7 { '7' }
    else if d == 8 { '8' }
    else { '9' }
}

/// `n` written in decimal, without leading zeros.
pub open spec fn decimal(n: nat) -> Seq<char>
    decreases n,
{
    if n < 10 {
        seq![digit_char(n)]
    } else {
        decimal(n / 10).push(digit_char(n % 10))
    }
}

/// `digits` with a comma after each digit that is followed by a positive
/// multiple of three digits: `1234567` becomes `1,234,567`.
pub open spec fn with_thousands_commas(digits: Seq<char>) -> Seq<char>
    decreases digits.len(),
{
    if digits.len() == 0 {
        Seq::empty()
    } else {
        let after = digits.len() - 1;
        seq![digits[0]] + (if after > 0 && after % 3 == 0 { seq![','] } else { Seq::empty() })
            + with_thousands_commas(digits.drop_first())
    }
}

fn digit_of(d: u64) -> (c: char)
    requires
        d < 10,
    ensures
        c == digit_char(d as nat),
{
    match d {
        0 => '0',
        1 => '1',
        2 => '2',
        3 => '3',
        4 => '4',
        5 => '5',
        6 => '6',
        7 => '7',
        8 => '8',
        _ => '9',
    }
}

/// The decimal digits of `n`.
pub fn decimal_digits(n: u64) -> (r: Vec<char>)
    ensures
        r@ == decimal(n as nat),
{
    let mut digits: Vec<char> = vec![digit_of(n % 10)];
    let mut m: u64 = n / 10;
    assert(digits@ =~= seq![digit_char((n % 10) as nat)]);
    while m > 0
        invariant
            decimal(n as nat) == (if m > 0 { decimal(m as nat) } else { Seq::<char>::empty() }) + digits@,
        decreases m,
    {
        let ghost before = digits@;
        digits.insert(0, digit_of(m % 10));
        assert(digits@ =~= seq![digit_char((m % 10) as nat)] + before);
        m = m / 10;
    }
    assert(decimal(n as nat) =~= digits@);
    digits
}

/// `n` in decimal.
pub fn decimal_string(n: u64) -> (r: String)
    ensures
        r@ == decimal(n as nat),
{
    let digits = decimal_digits(n);
    let mut r = String::new();
    for i in 0..digits.len()
        invariant
            r@ == digits@.take(i as int),
    {
        push_char(&mut r, digits[i]);
        assert(digits@.take(i + 1) =~= digits@.take(i as int).push(digits@[i as int]));
    }
    assert(digits@.take(digits@.len() as int) =~= digits@);
    r
}

/// A token count with thousands separated by commas, or a dash when unknown.
pub fn format_tokens(n: Option<u64>) -> (r: String)
    ensures
        r@ == match n {
            Some(v) => with_thousands_commas(decimal(v as nat)),
            None => "—"@,
        },
{
    match n {
        Some(v) => {
            let digits = decimal_digits(v);
            let len = digits.len();
            let mut result = String::new();
            assert(digits@.skip(0) =~= digits@);
            for i in 0..len
                invariant
                    len == digits@.len(),
                    with_thousands_commas(digits@) == result@ + with_thousands_commas(digits@.skip(i as int)),
            {
                let ghost rest = digits@.skip(i as int);
                assert(rest[0] == digits@[i as int]);
                assert(rest.drop_first() =~= digits@.skip(i + 1));
                push_char(&mut result, digits[i]);
                let after = len - 1 - i;
                if after > 0 && after % 3 == 0 {
                    push_char(&mut result, ',');
                }
            }
            assert(digits@.skip(len as int) =~= Seq::<char>::empty());
            result
        },
        None => string_of("—"),
    }
}

/// Decimal digits hold no comma.
proof fn lemma_decimal_has_no_comma(n: nat)
    ensures
        forall|k: int| 0 <= k < decimal(n).len() ==> decimal(n)[k] != ',',
    decreases n,
{
    assert(forall|d: nat| #[trigger] digit_char(d) != ',');
    if n >= 10 {
        lemma_decimal_has_no_comma(n / 10);
        let front = decimal(n / 10);
        assert forall|k: int| 0 <= k < decimal(n).len() implies decimal(n)[k] != ',' by {
            if k < front.len() {
                assert(decimal(n)[k] == front[k]);
            }
        }
    }
}

proof fn lemma_drop_commas(digits: Seq<char>)
    requires
        forall|k: int| 0 <= k < digits.len() ==> digits[k] != ',',
    ensures
        with_thousands_commas(digits).filter(|c: char| c != ',') == digits,
    decreases digits.len(),
{
    let not_comma = |c: char| c != ',';
    reveal_with_fuel(Seq::filter, 2);
    if digits.len() > 0 {
        let rest = digits.drop_first();
        lemma_drop_commas(rest);
        let after = digits.len() - 1;
        let sep = if after > 0 && after % 3 == 0 { seq![','] } else { Seq::<char>::empty() };
        Seq::filter_distributes_over_add(seq![digits[0]] + sep, with_thousands_commas(rest), not_comma);
        Seq::filter_distributes_over_add(seq![digits[0]], sep, not_comma);
        assert(seq![digits[0]].drop_last() =~= Seq::<char>::empty());
        assert(seq![digits[0]].filter(not_comma) =~= seq![digits[0]]);
        if after > 0 && after % 3 == 0 {
            assert(seq![','].drop_last() =~= Seq::<char>::empty());
            assert(sep.filter(not_comma) =~= Seq::<char>::empty());
        } else {
            assert(sep.filter(not_comma) =~= Seq::<char>::empty());
        }
        assert(digits =~= seq![digits[0]] + rest);
    } else {
        assert(with_thousands_commas(digits).filter(not_comma) =~= Seq::<char>::empty());
    }
}

/// Dropping the commas from a formatted token count gives the count in decimal.
pub proof fn lemma_token_commas_only_separate(n: nat)
    ensures
        with_thousands_commas(decimal(n)).filter(|c: char| c != ',') == decimal(n),
{
    lemma_decimal_has_no_comma(n);
    lemma_drop_commas(decimal(n));
}

/// The number of commas in `len` digits grouped by thousands.
pub open spec fn comma_count(len: nat) -> nat {
    if len == 0 {
        0
    } else {
        ((len - 1) / 3) as nat
    }
}

/// The number of digits before the first comma in `len` digits grouped by
/// thousands.
pub open spec fn first_group_len(len: nat) -> nat {
    (len - 3 * comma_count(len)) as nat
}

/// `shown` is `digits` in groups: a first group of one to three digits, then
/// groups of exactly three digits, each after a comma.
pub open spec fn grouped_by_thousands(digits: Seq<char>, shown: Seq<char>) -> bool {
    let g = comma_count(digits.len());
    let f = first_group_len(digits.len());
    &&& 1 <= f <= 3
    &&& shown.len() == digits.len() + g
    &&& forall|k: int| 0 <= k < f ==> #[trigger] shown[k] == digits[k]
    &&& forall|k: int| f <= k < shown.len() ==> #[trigger] shown[k] == if (k - f) % 4 == 0 {
        ','
    } else {
        digits[f + 3 * ((k - f) / 4) + (k - f) % 4 - 1]
    }
}

/// At most three digits get no comma; more digits are the formatted digits
/// but the last three, a comma, and the last three digits.
pub proof fn lemma_thousands_last_group(digits: Seq<char>)
    ensures
        digits.len() <= 3 ==> with_thousands_commas(digits) == digits,
        digits.len() > 3 ==> with_thousands_commas(digits) == with_thousands_commas(
            digits.take(digits.len() - 3),
        ) + seq![','] + digits.skip(digits.len() - 3),
    decreases digits.len(),
{
    let len = digits.len();
    if len == 0 {
        assert(with_thousands_commas(digits) =~= digits);
    } else {
        let rest = digits.drop_first();
        lemma_thousands_last_group(rest);
        if len <= 3 {
            assert(with_thousands_commas(digits) =~= digits);
        } else if len == 4 {
            let front = digits.take(1);
            assert(front.drop_first() =~= Seq::<char>::empty());
            assert(with_thousands_commas(front.drop_first()) =~= Seq::<char>::empty());
            assert(front[0] == digits[0]);
            assert(with_thousands_commas(front) =~= seq![digits[0]]);
            assert(rest =~= digits.skip(1));
            assert(with_thousands_commas(digits) =~= seq![digits[0]] + seq![','] + rest);
        } else {
            let front = digits.take(len - 3);
            assert(front.drop_first() =~= rest.take(rest.len() - 3));
            assert(front[0] == digits[0]);
            assert(rest.skip(rest.len() - 3) =~= digits.skip(len - 3));
            let sep = if len - 1 > 0 && (len - 1) % 3 == 0 { seq![','] } else { Seq::<char>::empty() };
            assert(with_thousands_commas(front) == seq![digits[0]] + sep + with_thousands_commas(
                rest.take(rest.len() - 3),
            ));
            assert(with_thousands_commas(digits) =~= with_thousands_commas(front) + seq![','] + digits.skip(
                len - 3,
            ));
        }
    }
}

/// Digits formatted with thousands commas fall into groups: one to three digits
/// first, then groups of exactly three, each after a comma.
pub proof fn lemma_thousands_groups(digits: Seq<char>)
    requires
        digits.len() >= 1,
    ensures
        grouped_by_thousands(digits, with_thousands_commas(digits)),
    decreases digits.len(),
{
    let len = digits.len();
    lemma_thousands_last_group(digits);
    if len > 3 {
        let front = digits.take(len - 3);
        lemma_thousands_groups(front);
        let w = with_thousands_commas(digits);
        let wf = with_thousands_commas(front);
        let g = comma_count(len);
        let f = first_group_len(len);
        assert(comma_count((len - 3) as nat) == g - 1);
        assert(first_group_len((len - 3) as nat) == f);
        let c = len - 3 + g - 1;
        assert(wf.len() == c);
        assert forall|k: int| f <= k < w.len() implies #[trigger] w[k] == if (k - f) % 4 == 0 {
            ','
        } else {
            digits[f + 3 * ((k - f) / 4) + (k - f) % 4 - 1]
        } by {
            let m = k - f;
            if k < c {
                assert(w[k] == wf[k]);
                assert(m == 4 * (m / 4) + m % 4 && 0 <= m % 4 < 4);
                assert(m / 4 < g - 1);
                if m % 4 != 0 {
                    assert(front[f + 3 * (m / 4) + m % 4 - 1] == digits[f + 3 * (m / 4) + m % 4 - 1]);
                }
            } else if k == c {
                assert(m == 4 * (g - 1));
                assert(m % 4 == 0);
            } else {
                let r = k - c;
                assert(m == 4 * (g - 1) + r);
                assert(m / 4 == g - 1 && m % 4 == r);
                assert(w[k] == digits.skip(len - 3)[r - 1]);
            }
        }
        assert forall|k: int| 0 <= k < f implies #[trigger] w[k] == digits[k] by {
            assert(w[k] == wf[k]);
            assert(wf[k] == front[k]);
        }
    }
}

/// A text without commas keeps nothing when filtered for commas.
proof fn lemma_no_comma_filter(s: Seq<char>)
    requires
        forall|k: int| 0 <= k < s.len() ==> s[k] != ',',
    ensures
        s.filter(|c: char| c == ',').len() == 0,
{
    let is_comma = |c: char| c == ',';
    if s.filter(is_comma).len() > 0 {
        s.lemma_filter_pred(is_comma, 0);
        assert(s.filter(is_comma).contains(s.filter(is_comma)[0]));
        s.lemma_filter_contains_rev(is_comma, ',');
    }
}

/// Digits without commas get `comma_count` commas.
proof fn lemma_thousands_comma_count(digits: Seq<char>)
    requires
        forall|k: int| 0 <= k < digits.len() ==> digits[k] != ',',
    ensures
        with_thousands_commas(digits).filter(|c: char| c == ',').len() == comma_count(digits.len()),
    decreases digits.len(),
{
    let is_comma = |c: char| c == ',';
    let len = digits.len();
    lemma_thousands_last_group(digits);
    if len <= 3 {
        lemma_no_comma_filter(digits);
    } else {
        let front = digits.take(len - 3);
        let back = digits.skip(len - 3);
        lemma_thousands_comma_count(front);
        lemma_no_comma_filter(back);
        let wf = with_thousands_commas(front);
        Seq::filter_distributes_over_add(wf + seq![','], back, is_comma);
        Seq::filter_distributes_over_add(wf, seq![','], is_comma);
        reveal_with_fuel(Seq::filter, 2);
        assert(seq![','].drop_last() =~= Seq::<char>::empty());
        assert(seq![','].filter(is_comma) =~= seq![',']);
        assert(comma_count((len - 3) as nat) + 1 == comma_count(len));
    }
}

/// A formatted token count groups its decimal digits by thousands: one to
/// three digits first, then groups of exactly three, each after a comma, with
/// one comma fewer than there are groups.
pub proof fn lemma_token_groups(n: nat)
    ensures
        grouped_by_thousands(decimal(n), with_thousands_commas(decimal(n))),
        with_thousands_commas(decimal(n)).filter(|c: char| c == ',').len() == comma_count(decimal(n).len()),
{
    lemma_decimal_nonempty(n);
    lemma_decimal_has_no_comma(n);
    lemma_thousands_groups(decimal(n));
    lemma_thousands_comma_count(decimal(n));
}

/// Every number has at least one decimal digit.
proof fn lemma_decimal_nonempty(n: nat)
    ensures
        decimal(n).len() >= 1,
    decreases n,
{
    if n >= 10 {
        lemma_decimal_nonempty(n / 10);
    }
}

/// A price as shown, or a dash when unknown.
pub open spec fn price_text(price: Option<String>) -> Seq<char> {
    match price {
        Some(t) => t@,
        None => "—"@,
    }
}

/// Writes a price as shown, or a dash when unknown.
pub fn format_price(price: &Option<String>) -> (r: String)
    ensures
        r@ == price_text(*price),
{
    match price {
        Some(t) => string_of(t.as_str()),
        None => string_of("—"),
    }
}

/// An indented bold green label and, in white, its value.
pub open spec fn label_value_line(label: Seq<char>, value: Seq<char>) -> Seq<(Seq<char>, Tone)> {
    seq![("  "@ + label + ": "@, Tone::Label), (value, Tone::Text)]
}

/// A labelled value.
pub fn label_value(label: &str, value: &str) -> (r: Line)
    ensures
        r@ == label_value_line(label@, value@),
{
    line2(string_of("  ").concat(label).concat(": "), Tone::Label, string_of(value), Tone::Text)
}

/// A bold yellow section title between rules.
pub open spec fn section_header_line(title: Seq<char>) -> Seq<(Seq<char>, Tone)> {
    seq![("  ── "@ + title + " ──"@, Tone::Heading)]
}

/// A section title.
pub fn section_header(title: &str) -> (r: Line)
    ensures
        r@ == section_header_line(title@),
{
    line1(string_of("  ── ").concat(title).concat(" ──"), Tone::Heading)
}

/// An empty line.
pub open spec fn blank() -> Seq<(Seq<char>, Tone)> {
    seq![(Seq::<char>::empty(), Tone::Plain)]
}

/// An empty line.
pub fn blank_line() -> (r: Line)
    ensures
        r@ == blank(),
{
    line1(String::new(), Tone::Plain)
}

/// `items` with `sep` between each two.
pub open spec fn join_texts(items: Seq<Seq<char>>, sep: Seq<char>) -> Seq<char>
    decreases items.len(),
{
    if items.len() == 0 {
        Seq::empty()
    } else if items.len() == 1 {
        items[0]
    } else {
        join_texts(items.drop_last(), sep) + sep + items.last()
    }
}

/// The texts of a sequence of strings.
pub open spec fn texts(items: Seq<String>) -> Seq<Seq<char>> {
    items.map_values(|s: String| s@)
}

/// Joins `items` with `sep` between each two.
pub fn join(items: &Vec<String>, sep: &str) -> (r: String)
    ensures
        r@ == join_texts(texts(items@), sep@),
{
    let mut r = String::new();
    let ghost all = texts(items@);
    assert(all.take(0) =~= Seq::<Seq<char>>::empty());
    for i in 0..items.len()
        invariant
            all == texts(items@),
            r@ == join_texts(all.take(i as int), sep@),
    {
        assert(all.take(i + 1).drop_last() =~= all.take(i as int));
        assert(all.take(i + 1).last() == items@[i as int]@);
        if i != 0 {
            r.append(sep);
        } else {
            assert(all.take(1) =~= seq![items@[0]@]);
        }
        r.append(items[i].as_str());
    }
    assert(all.take(items@.len() as int) =~= all);
    r
}

/// A bold cyan title, indented.
pub open spec fn title_line(name: Seq<char>) -> Seq<(Seq<char>, Tone)> {
    seq![("  "@ + name, Tone::AccentBold)]
}

fn detail_title(name: &str) -> (r: Line)
    ensures
        r@ == title_line(name@),
{
    line1(string_of("  ").concat(name), Tone::AccentBold)
}

/// A bulleted environment variable.
pub open spec fn env_line(var: Seq<char>) -> Seq<(Seq<char>, Tone)> {
    seq![("  • "@, Tone::Good), (var, Tone::Text)]
}

/// The detail panel for a provider: its name, its id, API, documentation, npm
/// package and number of models, then its environment variables, or `(none)`.
pub open spec fn provider_detail_spec(p: Provider) -> Seq<Seq<(Seq<char>, Tone)>> {
    seq![
        title_line(p.name@),
        blank(),
        label_value_line("ID"@, p.id@),
        label_value_line("API"@, p.api@),
        label_value_line("Documentation"@, p.doc@),
        label_value_line("NPM Package"@, p.npm@),
        label_value_line("Models"@, decimal(p.models@.len())),
        blank(),
        section_header_line("Environment Variables"@),
    ] + p.env@.map_values(|e: String| env_line(e@)) + (if p.env@.len() == 0 {
        seq![seq![("  (none)"@, Tone::Plain)]]
    } else {
        Seq::empty()
    })
}

/// The detail panel's lines for a provider.
pub fn render_provider_detail(provider: &Provider) -> (r: Vec<Line>)
    ensures
        lines_view(r@) == provider_detail_spec(*provider),
{
    let mut lines: Vec<Line> = Vec::new();
    push_line(&mut lines, detail_title(provider.name.as_str()));
    push_line(&mut lines, blank_line());
    push_line(&mut lines, label_value("ID", provider.id.as_str()));
    push_line(&mut lines, label_value("API", provider.api.as_str()));
    push_line(&mut lines, label_value("Documentation", provider.doc.as_str()));
    push_line(&mut lines, label_value("NPM Package", provider.npm.as_str()));
    let count = decimal_string(provider.models.len() as u64);
    push_line(&mut lines, label_value("Models", count.as_str()));
    push_line(&mut lines, blank_line());
    push_line(&mut lines, section_header("Environment Variables"));
    let ghost head = lines_view(lines@);
    let ghost envs = provider.env@.map_values(|e: String| env_line(e@));
    assert(envs.take(0) =~= Seq::<Seq<(Seq<char>, Tone)>>::empty());
    assert(lines_view(lines@) =~= head + envs.take(0));
    for i in 0..provider.env.len()
        invariant
            envs == provider.env@.map_values(|e: String| env_line(e@)),
            lines_view(lines@) == head + envs.take(i as int),
    {
        let var = string_of(provider.env[i].as_str());
        push_line(&mut lines, line2(string_of("  • "), Tone::Good, var, Tone::Text));
        assert(envs.take(i + 1) =~= envs.take(i as int).push(envs[i as int]));
    }
    assert(envs.take(provider.env@.len() as int) =~= envs);
    if provider.env.len() == 0 {
        push_line(&mut lines, line1(string_of("  (none)"), Tone::Plain));
    }
    assert(lines_view(lines@) =~= provider_detail_spec(*provider));
    lines
}

/// Whatever one part of a concatenation holds, the whole holds.
proof fn lemma_contains_concat<A>(a: Seq<A>, b: Seq<A>, x: A)
    ensures
        a.contains(x) ==> (a + b).contains(x),
        b.contains(x) ==> (a + b).contains(x),
{
    if a.contains(x) {
        let i = choose|i: int| 0 <= i < a.len() && a[i] == x;
        assert((a + b)[i] == x);
    }
    if b.contains(x) {
        let i = choose|i: int| 0 <= i < b.len() && b[i] == x;
        assert((a + b)[a.len() + i] == x);
    }
}

/// A provider's detail panel shows its name as the title; its id, API,
/// documentation, npm package and number of models in decimal, each after its
/// label; each of its environment variables after a bullet; and `(none)`
/// exactly when it has no environment variables.
pub proof fn lemma_provider_detail_shows_fields(p: Provider)
    ensures
        provider_detail_spec(p).contains(seq![("  "@ + p.name@, Tone::AccentBold)]),
        provider_detail_spec(p).contains(seq![("  ID: "@, Tone::Label), (p.id@, Tone::Text)]),
        provider_detail_spec(p).contains(seq![("  API: "@, Tone::Label), (p.api@, Tone::Text)]),
        provider_detail_spec(p).contains(seq![("  Documentation: "@, Tone::Label), (p.doc@, Tone::Text)]),
        provider_detail_spec(p).contains(seq![("  NPM Package: "@, Tone::Label), (p.npm@, Tone::Text)]),
        provider_detail_spec(p).contains(
            seq![("  Models: "@, Tone::Label), (decimal(p.models@.len()), Tone::Text)],
        ),
        forall|k: int|
            0 <= k < p.env@.len() ==> provider_detail_spec(p).contains(
                seq![("  • "@, Tone::Good), ((#[trigger] p.env@[k])@, Tone::Text)],
            ),
        provider_detail_spec(p).contains(seq![("  (none)"@, Tone::Plain)]) <==> p.env@.len() == 0,
{
    reveal_strlit("  ");
    reveal_strlit(": ");
    reveal_strlit("ID");
    reveal_strlit("API");
    reveal_strlit("Documentation");
    reveal_strlit("NPM Package");
    reveal_strlit("Models");
    reveal_strlit("  ID: ");
    reveal_strlit("  API: ");
    reveal_strlit("  Documentation: ");
    reveal_strlit("  NPM Package: ");
    reveal_strlit("  Models: ");
    reveal_strlit("  (none)");
    let head = seq![
        title_line(p.name@),
        blank(),
        label_value_line("ID"@, p.id@),
        label_value_line("API"@, p.api@),
        label_value_line("Documentation"@, p.doc@),
        label_value_line("NPM Package"@, p.npm@),
        label_value_line("Models"@, decimal(p.models@.len())),
        blank(),
        section_header_line("Environment Variables"@),
    ];
    let envs = p.env@.map_values(|e: String| env_line(e@));
    let none: Seq<Seq<(Seq<char>, Tone)>> = if p.env@.len() == 0 {
        seq![seq![("  (none)"@, Tone::Plain)]]
    } else {
        Seq::empty()
    };
    assert(provider_detail_spec(p) == head + envs + none);
    assert("  "@ + "ID"@ + ": "@ =~= "  ID: "@);
    assert("  "@ + "API"@ + ": "@ =~= "  API: "@);
    assert("  "@ + "Documentation"@ + ": "@ =~= "  Documentation: "@);
    assert("  "@ + "NPM Package"@ + ": "@ =~= "  NPM Package: "@);
    assert("  "@ + "Models"@ + ": "@ =~= "  Models: "@);
    assert(head[0] == seq![("  "@ + p.name@, Tone::AccentBold)]);
    assert(head[2] == seq![("  ID: "@, Tone::Label), (p.id@, Tone::Text)]);
    assert(head[3] == seq![("  API: "@, Tone::Label), (p.api@, Tone::Text)]);
    assert(head[4] == seq![("  Documentation: "@, Tone::Label), (p.doc@, Tone::Text)]);
    assert(head[5] == seq![("  NPM Package: "@, Tone::Label), (p.npm@, Tone::Text)]);
    assert(head[6] == seq![("  Models: "@, Tone::Label), (decimal(p.models@.len()), Tone::Text)]);
    lemma_contains_concat(head, envs, seq![("  "@ + p.name@, Tone::AccentBold)]);
    lemma_contains_concat(head, envs, seq![("  ID: "@, Tone::Label), (p.id@, Tone::Text)]);
    lemma_contains_concat(head, envs, seq![("  API: "@, Tone::Label), (p.api@, Tone::Text)]);
    lemma_contains_concat(head, envs, seq![("  Documentation: "@, Tone::Label), (p.doc@, Tone::Text)]);
    lemma_contains_concat(head, envs, seq![("  NPM Package: "@, Tone::Label), (p.npm@, Tone::Text)]);
    lemma_contains_concat(head, envs, seq![("  Models: "@, Tone::Label), (decimal(p.models@.len()), Tone::Text)]);
    lemma_contains_concat(head + envs, none, seq![("  "@ + p.name@, Tone::AccentBold)]);
    lemma_contains_concat(head + envs, none, seq![("  ID: "@, Tone::Label), (p.id@, Tone::Text)]);
    lemma_contains_concat(head + envs, none, seq![("  API: "@, Tone::Label), (p.api@, Tone::Text)]);
    lemma_contains_concat(head + envs, none, seq![("  Documentation: "@, Tone::Label), (p.doc@, Tone::Text)]);
    lemma_contains_concat(head + envs, none, seq![("  NPM Package: "@, Tone::Label), (p.npm@, Tone::Text)]);
    lemma_contains_concat(
        head + envs,
        none,
        seq![("  Models: "@, Tone::Label), (decimal(p.models@.len()), Tone::Text)],
    );
    assert forall|k: int| 0 <= k < p.env@.len() implies provider_detail_spec(p).contains(
        seq![("  • "@, Tone::Good), ((#[trigger] p.env@[k])@, Tone::Text)],
    ) by {
        let x = seq![("  • "@, Tone::Good), (p.env@[k]@, Tone::Text)];
        assert(envs[k] == x);
        lemma_contains_concat(head, envs, x);
        lemma_contains_concat(head + envs, none, x);
    }
    let none_line = seq![("  (none)"@, Tone::Plain)];
    if p.env@.len() == 0 {
        assert(none[0] == none_line);
        lemma_contains_concat(head + envs, none, none_line);
    } else {
        assert(envs.len() > 0);
        let all = head + envs + none;
        assert forall|i: int| 0 <= i < all.len() implies all[i] != none_line by {
            if i < 9 {
                assert(all[i] == head[i]);
                if i == 1 || i == 7 {
                    assert(all[i][0].0.len() == 0);
                    assert(none_line[0].0.len() == 8);
                } else if i == 0 || i == 8 {
                    assert(all[i][0].1 != Tone::Plain);
                } else {
                    assert(all[i].len() == 2);
                }
            } else {
                assert(all[i] == envs[i - 9]);
                assert(all[i].len() == 2);
            }
        }
    }
}

/// A capability with its check mark (green) or cross (red).
pub open spec fn check_line(name: Seq<char>, value: bool) -> Seq<(Seq<char>, Tone)> {
    seq![
        ("  "@ + (if value { "✓"@ } else { "✗"@ }) + " "@, if value { Tone::Good } else { Tone::Bad }),
        (name, Tone::Text),
    ]
}

fn check(name: &str, value: bool) -> (r: Line)
    ensures
        r@ == check_line(name@, value),
{
    let tone = if value { Tone::Good } else { Tone::Bad };
    line2(string_of("  ").concat(bool_check(value)).concat(" "), tone, string_of(name), Tone::Text)
}

/// A labelled line for an optional text, or nothing.
pub open spec fn optional_line(label: Seq<char>, value: Option<String>) -> Seq<Seq<(Seq<char>, Tone)>> {
    match value {
        Some(v) => seq![label_value_line(label, v@)],
        None => Seq::empty(),
    }
}

fn push_optional(lines: &mut Vec<Line>, label: &str, value: &Option<String>)
    ensures
        lines_view(final(lines)@) == lines_view(old(lines)@) + optional_line(label@, *value),
{
    match value {
        Some(v) => push_line(lines, label_value(label, v.as_str())),
        None => {},
    }
    assert(lines_view(lines@) =~= lines_view(old(lines)@) + optional_line(label@, *value));
}

/// The name shown for a provider: its name, or else its key.
pub open spec fn provider_label(provider: Option<Provider>, provider_id: Seq<char>) -> Seq<char> {
    match provider {
        Some(p) => p.name@,
        None => provider_id,
    }
}

/// Name, id, provider and family of a model, then its capabilities.
pub open spec fn model_heading_spec(m: Model, provider_name: Seq<char>) -> Seq<Seq<(Seq<char>, Tone)>> {
    seq![title_line(m.name@), blank(), label_value_line("ID"@, m.id@), label_value_line("Provider"@, provider_name)]
        + optional_line("Family"@, m.family)
        + seq![
        blank(),
        section_header_line("Capabilities"@),
        check_line("Reasoning"@, m.reasoning),
        check_line("Tool Call"@, m.tool_call),
        check_line("Attachment"@, m.attachment),
        check_line("Temperature"@, m.temperature),
    ] + match m.open_weights {
        Some(ow) => seq![check_line("Open Weights"@, ow)],
        None => Seq::empty(),
    } + seq![
        blank(),
        section_header_line("Modalities"@),
        label_value_line("Input"@, join_texts(texts(m.modalities.input@), ", "@)),
        label_value_line("Output"@, join_texts(texts(m.modalities.output@), ", "@)),
    ]
}

/// The prices of a model, when it has any.
pub open spec fn cost_section_spec(m: Model) -> Seq<Seq<(Seq<char>, Tone)>> {
    match m.cost {
        Some(c) => seq![
            blank(),
            section_header_line("Cost (per 1M tokens)"@),
            label_value_line("Input"@, price_text(c.input)),
            label_value_line("Output"@, price_text(c.output)),
        ] + optional_line("Reasoning"@, c.reasoning) + optional_line("Cache Read"@, c.cache_read)
            + optional_line("Cache Write"@, c.cache_write) + optional_line("Input Audio"@, c.input_audio)
            + optional_line("Output Audio"@, c.output_audio),
        None => Seq::empty(),
    }
}

/// A token limit with its label, when it is known.
pub open spec fn limit_line(label: Seq<char>, n: Option<u64>) -> Seq<Seq<(Seq<char>, Tone)>> {
    match n {
        Some(v) => seq![label_value_line(label, with_thousands_commas(decimal(v as nat)))],
        None => Seq::empty(),
    }
}

/// The token limits of a model, when it has them.
pub open spec fn limit_section_spec(m: Model) -> Seq<Seq<(Seq<char>, Tone)>> {
    match m.limit {
        Some(l) => seq![blank(), section_header_line("Limits"@)] + limit_line("Context"@, l.context)
            + limit_line("Output"@, l.output),
        None => Seq::empty(),
    }
}

/// Knowledge cut-off, release and update dates, under a heading, when there are any.
pub open spec fn metadata_section_spec(m: Model) -> Seq<Seq<(Seq<char>, Tone)>> {
    let meta = optional_line("Knowledge"@, m.knowledge) + optional_line("Release Date"@, m.release_date)
        + optional_line("Last Updated"@, m.last_updated);
    if meta.len() == 0 {
        Seq::empty()
    } else {
        seq![blank(), section_header_line("Metadata"@)] + meta
    }
}

/// The detail panel for a model of the provider `provider` (shown by name, or by
/// `provider_id` when it is not known).
pub open spec fn model_detail_spec(m: Model, provider: Option<Provider>, provider_id: Seq<char>) -> Seq<Seq<(Seq<char>, Tone)>> {
    model_heading_spec(m, provider_label(provider, provider_id)) + cost_section_spec(m)
        + limit_section_spec(m) + metadata_section_spec(m)
}

fn push_model_heading(lines: &mut Vec<Line>, model: &Model, provider_name: &str)
    ensures
        lines_view(final(lines)@) == lines_view(old(lines)@) + model_heading_spec(*model, provider_name@),
{
    let ghost start = lines_view(lines@);
    push_line(lines, detail_title(model.name.as_str()));
    push_line(lines, blank_line());
    push_line(lines, label_value("ID", model.id.as_str()));
    push_line(lines, label_value("Provider", provider_name));
    push_optional(lines, "Family", &model.family);
    push_line(lines, blank_line());
    push_line(lines, section_header("Capabilities"));
    push_line(lines, check("Reasoning", model.reasoning));
    push_line(lines, check("Tool Call", model.tool_call));
    push_line(lines, check("Attachment", model.attachment));
    push_line(lines, check("Temperature", model.temperature));
    if let Some(ow) = model.open_weights {
        push_line(lines, check("Open Weights", ow));
    }
    push_line(lines, blank_line());
    push_line(lines, section_header("Modalities"));
    let input = join(&model.modalities.input, ", ");
    push_line(lines, label_value("Input", input.as_str()));
    let output = join(&model.modalities.output, ", ");
    push_line(lines, label_value("Output", output.as_str()));
    assert(lines_view(lines@) =~= start + model_heading_spec(*model, provider_name@));
}

fn push_cost_section(lines: &mut Vec<Line>, model: &Model)
    ensures
        lines_view(final(lines)@) == lines_view(old(lines)@) + cost_section_spec(*model),
{
    let ghost start = lines_view(lines@);
    if let Some(cost) = &model.cost {
        push_line(lines, blank_line());
        push_line(lines, section_header("Cost (per 1M tokens)"));
        let input = format_price(&cost.input);
        push_line(lines, label_value("Input", input.as_str()));
        let output = format_price(&cost.output);
        push_line(lines, label_value("Output", output.as_str()));
        push_optional(lines, "Reasoning", &cost.reasoning);
        push_optional(lines, "Cache Read", &cost.cache_read);
        push_optional(lines, "Cache Write", &cost.cache_write);
        push_optional(lines, "Input Audio", &cost.input_audio);
        push_optional(lines, "Output Audio", &cost.output_audio);
    }
    assert(lines_view(lines@) =~= start + cost_section_spec(*model));
}

fn push_limit(lines: &mut Vec<Line>, label: &str, n: Option<u64>)
    ensures
        lines_view(final(lines)@) == lines_view(old(lines)@) + limit_line(label@, n),
{
    if let Some(v) = n {
        let text = format_tokens(Some(v));
        push_line(lines, label_value(label, text.as_str()));
    }
    assert(lines_view(lines@) =~= lines_view(old(lines)@) + limit_line(label@, n));
}

fn push_limit_section(lines: &mut Vec<Line>, model: &Model)
    ensures
        lines_view(final(lines)@) == lines_view(old(lines)@) + limit_section_spec(*model),
{
    let ghost start = lines_view(lines@);
    if let Some(limit) = &model.limit {
        push_line(lines, blank_line());
        push_line(lines, section_header("Limits"));
        push_limit(lines, "Context", limit.context);
        push_limit(lines, "Output", limit.output);
    }
    assert(lines_view(lines@) =~= start + limit_section_spec(*model));
}

fn push_metadata_section(lines: &mut Vec<Line>, model: &Model)
    ensures
        lines_view(final(lines)@) == lines_view(old(lines)@) + metadata_section_spec(*model),
{
    let ghost start = lines_view(lines@);
    let mut meta: Vec<Line> = Vec::new();
    push_optional(&mut meta, "Knowledge", &model.knowledge);
    push_optional(&mut meta, "Release Date", &model.release_date);
    push_optional(&mut meta, "Last Updated", &model.last_updated);
    assert(lines_view(Seq::<Line>::empty()) =~= Seq::<Seq<(Seq<char>, Tone)>>::empty());
    let ghost meta_view = lines_view(meta@);
    if meta.len() != 0 {
        push_line(lines, blank_line());
        push_line(lines, section_header("Metadata"));
        let ghost mid = lines@;
        lines.append(&mut meta);
        assert(lines_view(lines@) =~= lines_view(mid) + meta_view);
    }
    assert(lines_view(lines@) =~= start + metadata_section_spec(*model));
}

/// A labelled line, its label written out: `label_text` is the indented label
/// with its colon.
proof fn lemma_label_text(label: Seq<char>, label_text: Seq<char>, v: Seq<char>)
    requires
        "  "@ + label + ": "@ == label_text,
    ensures
        label_value_line(label, v) == seq![(label_text, Tone::Label), (v, Tone::Text)],
{
}

/// An optional labelled line holds the labelled value when there is one.
proof fn lemma_optional_line_shows(label: Seq<char>, label_text: Seq<char>, value: Option<String>)
    requires
        "  "@ + label + ": "@ == label_text,
    ensures
        value matches Some(v) ==> optional_line(label, value).contains(
            seq![(label_text, Tone::Label), (v@, Tone::Text)],
        ),
{
    if let Some(v) = value {
        lemma_label_text(label, label_text, v@);
        assert(optional_line(label, value)[0] == seq![(label_text, Tone::Label), (v@, Tone::Text)]);
    }
}

/// Whatever a part of a model's detail panel holds, the panel holds.
proof fn lemma_model_panel_parts(m: Model, provider: Option<Provider>, provider_id: Seq<char>, x: Seq<(Seq<char>, Tone)>)
    ensures
        (model_heading_spec(m, provider_label(provider, provider_id)).contains(x) || cost_section_spec(m).contains(x)
            || limit_section_spec(m).contains(x) || metadata_section_spec(m).contains(x)) ==> model_detail_spec(
            m,
            provider,
            provider_id,
        ).contains(x),
{
    let a = model_heading_spec(m, provider_label(provider, provider_id));
    let b = cost_section_spec(m);
    let c = limit_section_spec(m);
    let d = metadata_section_spec(m);
    lemma_contains_concat(a, b, x);
    lemma_contains_concat(a + b, c, x);
    lemma_contains_concat(a + b + c, d, x);
}

/// The title, id, provider and family lines of a model's detail panel.
proof fn lemma_model_detail_heading(m: Model, provider: Option<Provider>, provider_id: Seq<char>)
    ensures
        model_detail_spec(m, provider, provider_id).contains(seq![("  "@ + m.name@, Tone::AccentBold)]),
        model_detail_spec(m, provider, provider_id).contains(seq![("  ID: "@, Tone::Label), (m.id@, Tone::Text)]),
        model_detail_spec(m, provider, provider_id).contains(
            seq![("  Provider: "@, Tone::Label), (provider_label(provider, provider_id), Tone::Text)],
        ),
        m.family matches Some(f) ==> model_detail_spec(m, provider, provider_id).contains(
            seq![("  Family: "@, Tone::Label), (f@, Tone::Text)],
        ),
{
    reveal_strlit("  ");
    reveal_strlit(": ");
    reveal_strlit("ID");
    reveal_strlit("  ID: ");
    reveal_strlit("Provider");
    reveal_strlit("  Provider: ");
    reveal_strlit("Family");
    reveal_strlit("  Family: ");
    assert("  "@ + "ID"@ + ": "@ =~= "  ID: "@);
    assert("  "@ + "Provider"@ + ": "@ =~= "  Provider: "@);
    assert("  "@ + "Family"@ + ": "@ =~= "  Family: "@);
    let name = provider_label(provider, provider_id);
    let top = seq![title_line(m.name@), blank(), label_value_line("ID"@, m.id@), label_value_line("Provider"@, name)];
    let fam = optional_line("Family"@, m.family);
    let heading = model_heading_spec(m, name);
    let rest_h = heading.skip((top.len() + fam.len()) as int);
    assert(heading =~= top + fam + rest_h);
    lemma_label_text("ID"@, "  ID: "@, m.id@);
    lemma_label_text("Provider"@, "  Provider: "@, name);
    let xt = seq![("  "@ + m.name@, Tone::AccentBold)];
    let xi = seq![("  ID: "@, Tone::Label), (m.id@, Tone::Text)];
    let xp = seq![("  Provider: "@, Tone::Label), (name, Tone::Text)];
    assert(top[0] == xt);
    assert(top[2] == xi);
    assert(top[3] == xp);
    lemma_contains_concat(top, fam, xt);
    lemma_contains_concat(top + fam, rest_h, xt);
    lemma_model_panel_parts(m, provider, provider_id, xt);
    lemma_contains_concat(top, fam, xi);
    lemma_contains_concat(top + fam, rest_h, xi);
    lemma_model_panel_parts(m, provider, provider_id, xi);
    lemma_contains_concat(top, fam, xp);
    lemma_contains_concat(top + fam, rest_h, xp);
    lemma_model_panel_parts(m, provider, provider_id, xp);
    lemma_optional_line_shows("Family"@, "  Family: "@, m.family);
    if let Some(f) = m.family {
        let x = seq![("  Family: "@, Tone::Label), (f@, Tone::Text)];
        lemma_contains_concat(top, fam, x);
        lemma_contains_concat(top + fam, rest_h, x);
        lemma_model_panel_parts(m, provider, provider_id, x);
    }
}

/// The metadata lines of a model's detail panel.
proof fn lemma_model_detail_metadata(m: Model, provider: Option<Provider>, provider_id: Seq<char>)
    ensures
        m.knowledge matches Some(v) ==> model_detail_spec(m, provider, provider_id).contains(
            seq![("  Knowledge: "@, Tone::Label), (v@, Tone::Text)],
        ),
        m.release_date matches Some(v) ==> model_detail_spec(m, provider, provider_id).contains(
            seq![("  Release Date: "@, Tone::Label), (v@, Tone::Text)],
        ),
        m.last_updated matches Some(v) ==> model_detail_spec(m, provider, provider_id).contains(
            seq![("  Last Updated: "@, Tone::Label), (v@, Tone::Text)],
        ),
        (m.knowledge is Some || m.release_date is Some || m.last_updated is Some) ==> model_detail_spec(
            m,
            provider,
            provider_id,
        ).contains(seq![("  ── Metadata ──"@, Tone::Heading)]),
{
    reveal_strlit("  ");
    reveal_strlit(": ");
    reveal_strlit("  ── ");
    reveal_strlit(" ──");
    reveal_strlit("Metadata");
    reveal_strlit("  ── Metadata ──");
    reveal_strlit("Knowledge");
    reveal_strlit("  Knowledge: ");
    reveal_strlit("Release Date");
    reveal_strlit("  Release Date: ");
    reveal_strlit("Last Updated");
    reveal_strlit("  Last Updated: ");
    assert("  "@ + "Knowledge"@ + ": "@ =~= "  Knowledge: "@);
    assert("  "@ + "Release Date"@ + ": "@ =~= "  Release Date: "@);
    assert("  "@ + "Last Updated"@ + ": "@ =~= "  Last Updated: "@);
    assert("  ── "@ + "Metadata"@ + " ──"@ =~= "  ── Metadata ──"@);
    let k = optional_line("Knowledge"@, m.knowledge);
    let r = optional_line("Release Date"@, m.release_date);
    let u = optional_line("Last Updated"@, m.last_updated);
    let meta = k + r + u;
    lemma_optional_line_shows("Knowledge"@, "  Knowledge: "@, m.knowledge);
    lemma_optional_line_shows("Release Date"@, "  Release Date: "@, m.release_date);
    lemma_optional_line_shows("Last Updated"@, "  Last Updated: "@, m.last_updated);
    if meta.len() > 0 {
        let top_m = seq![blank(), section_header_line("Metadata"@)];
        assert(metadata_section_spec(m) == top_m + meta);
        let header = seq![("  ── Metadata ──"@, Tone::Heading)];
        assert(top_m[1] == header);
        lemma_contains_concat(top_m, meta, header);
        lemma_model_panel_parts(m, provider, provider_id, header);
        if let Some(v) = m.knowledge {
            let x = seq![("  Knowledge: "@, Tone::Label), (v@, Tone::Text)];
            lemma_contains_concat(k, r, x);
            lemma_contains_concat(k + r, u, x);
            lemma_contains_concat(top_m, meta, x);
            lemma_model_panel_parts(m, provider, provider_id, x);
        }
        if let Some(v) = m.release_date {
            let x = seq![("  Release Date: "@, Tone::Label), (v@, Tone::Text)];
            lemma_contains_concat(k, r, x);
            lemma_contains_concat(k + r, u, x);
            lemma_contains_concat(top_m, meta, x);
            lemma_model_panel_parts(m, provider, provider_id, x);
        }
        if let Some(v) = m.last_updated {
            let x = seq![("  Last Updated: "@, Tone::Label), (v@, Tone::Text)];
            lemma_contains_concat(k + r, u, x);
            lemma_contains_concat(top_m, meta, x);
            lemma_model_panel_parts(m, provider, provider_id, x);
        }
    } else {
        assert(m.knowledge is None) by {
            if let Some(v) = m.knowledge {
                assert(k.len() == 1);
            }
        }
        assert(m.release_date is None) by {
            if let Some(v) = m.release_date {
                assert(r.len() == 1);
            }
        }
        assert(m.last_updated is None) by {
            if let Some(v) = m.last_updated {
                assert(u.len() == 1);
            }
        }
    }
}

/// The limit and price lines of a model's detail panel.
proof fn lemma_model_detail_limits_and_prices(m: Model, provider: Option<Provider>, provider_id: Seq<char>)
    ensures
        m.limit matches Some(l) ==> (l.context matches Some(v) ==> model_detail_spec(m, provider, provider_id).contains(
            seq![("  Context: "@, Tone::Label), (with_thousands_commas(decimal(v as nat)), Tone::Text)],
        )),
        m.limit matches Some(l) ==> (l.output matches Some(v) ==> model_detail_spec(m, provider, provider_id).contains(
            seq![("  Output: "@, Tone::Label), (with_thousands_commas(decimal(v as nat)), Tone::Text)],
        )),
        m.cost matches Some(c) ==> model_detail_spec(m, provider, provider_id).contains(
            seq![("  Input: "@, Tone::Label), (price_text(c.input), Tone::Text)],
        ),
        m.cost matches Some(c) ==> model_detail_spec(m, provider, provider_id).contains(
            seq![("  Output: "@, Tone::Label), (price_text(c.output), Tone::Text)],
        ),
{
    reveal_strlit("  ");
    reveal_strlit(": ");
    reveal_strlit("Context");
    reveal_strlit("  Context: ");
    reveal_strlit("Output");
    reveal_strlit("  Output: ");
    reveal_strlit("Input");
    reveal_strlit("  Input: ");
    assert("  "@ + "Context"@ + ": "@ =~= "  Context: "@);
    assert("  "@ + "Output"@ + ": "@ =~= "  Output: "@);
    assert("  "@ + "Input"@ + ": "@ =~= "  Input: "@);
    if let Some(l) = m.limit {
        let top_l = seq![blank(), section_header_line("Limits"@)];
        let ctx = limit_line("Context"@, l.context);
        let out = limit_line("Output"@, l.output);
        assert(limit_section_spec(m) == top_l + ctx + out);
        if let Some(v) = l.context {
            let t = with_thousands_commas(decimal(v as nat));
            let x = seq![("  Context: "@, Tone::Label), (t, Tone::Text)];
            lemma_label_text("Context"@, "  Context: "@, t);
            assert(ctx[0] == x);
            lemma_contains_concat(top_l, ctx, x);
            lemma_contains_concat(top_l + ctx, out, x);
            lemma_model_panel_parts(m, provider, provider_id, x);
        }
        if let Some(v) = l.output {
            let t = with_thousands_commas(decimal(v as nat));
            let x = seq![("  Output: "@, Tone::Label), (t, Tone::Text)];
            lemma_label_text("Output"@, "  Output: "@, t);
            assert(out[0] == x);
            lemma_contains_concat(top_l + ctx, out, x);
            lemma_model_panel_parts(m, provider, provider_id, x);
        }
    }
    if let Some(c) = m.cost {
        let first = seq![
            blank(),
            section_header_line("Cost (per 1M tokens)"@),
            label_value_line("Input"@, price_text(c.input)),
            label_value_line("Output"@, price_text(c.output)),
        ];
        let section = cost_section_spec(m);
        let more = section.skip(4);
        assert(section =~= first + more);
        lemma_label_text("Input"@, "  Input: "@, price_text(c.input));
        lemma_label_text("Output"@, "  Output: "@, price_text(c.output));
        let xi = seq![("  Input: "@, Tone::Label), (price_text(c.input), Tone::Text)];
        let xo = seq![("  Output: "@, Tone::Label), (price_text(c.output), Tone::Text)];
        assert(first[2] == xi);
        assert(first[3] == xo);
        lemma_contains_concat(first, more, xi);
        lemma_contains_concat(first, more, xo);
        lemma_model_panel_parts(m, provider, provider_id, xi);
        lemma_model_panel_parts(m, provider, provider_id, xo);
    }
}

/// A model's detail panel shows its name as the title; its id; the provider's
/// name (or, for an unknown provider, its key); its family, when known; each
/// of its knowledge cut-off, release date and last update that it has, under a
/// "Metadata" heading; its context and output limits, when known, with
/// thousands commas; and, when it has prices, its input and output prices (a
/// dash for an unknown one).
pub proof fn lemma_model_detail_shows_fields(m: Model, provider: Option<Provider>, provider_id: Seq<char>)
    ensures
        model_detail_spec(m, provider, provider_id).contains(seq![("  "@ + m.name@, Tone::AccentBold)]),
        model_detail_spec(m, provider, provider_id).contains(seq![("  ID: "@, Tone::Label), (m.id@, Tone::Text)]),
        model_detail_spec(m, provider, provider_id).contains(
            seq![
                ("  Provider: "@, Tone::Label),
                (if provider is Some { provider->Some_0.name@ } else { provider_id }, Tone::Text),
            ],
        ),
        m.family matches Some(f) ==> model_detail_spec(m, provider, provider_id).contains(
            seq![("  Family: "@, Tone::Label), (f@, Tone::Text)],
        ),
        m.knowledge matches Some(v) ==> model_detail_spec(m, provider, provider_id).contains(
            seq![("  Knowledge: "@, Tone::Label), (v@, Tone::Text)],
        ),
        m.release_date matches Some(v) ==> model_detail_spec(m, provider, provider_id).contains(
            seq![("  Release Date: "@, Tone::Label), (v@, Tone::Text)],
        ),
        m.last_updated matches Some(v) ==> model_detail_spec(m, provider, provider_id).contains(
            seq![("  Last Updated: "@, Tone::Label), (v@, Tone::Text)],
        ),
        (m.knowledge is Some || m.release_date is Some || m.last_updated is Some) ==> model_detail_spec(
            m,
            provider,
            provider_id,
        ).contains(seq![("  ── Metadata ──"@, Tone::Heading)]),
        m.limit matches Some(l) ==> (l.context matches Some(v) ==> model_detail_spec(m, provider, provider_id).contains(
            seq![("  Context: "@, Tone::Label), (with_thousands_commas(decimal(v as nat)), Tone::Text)],
        )),
        m.limit matches Some(l) ==> (l.output matches Some(v) ==> model_detail_spec(m, provider, provider_id).contains(
            seq![("  Output: "@, Tone::Label), (with_thousands_commas(decimal(v as nat)), Tone::Text)],
        )),
        m.cost matches Some(c) ==> model_detail_spec(m, provider, provider_id).contains(
            seq![
                ("  Input: "@, Tone::Label),
                (if c.input is Some { c.input->Some_0@ } else { "—"@ }, Tone::Text),
            ],
        ),
        m.cost matches Some(c) ==> model_detail_spec(m, provider, provider_id).contains(
            seq![
                ("  Output: "@, Tone::Label),
                (if c.output is Some { c.output->Some_0@ } else { "—"@ }, Tone::Text),
            ],
        ),
{
    lemma_model_detail_heading(m, provider, provider_id);
    lemma_model_detail_metadata(m, provider, provider_id);
    lemma_model_detail_limits_and_prices(m, provider, provider_id);
}

/// The detail panel's lines for a model.
pub fn render_model_detail(model: &Model, provider: Option<&Provider>, provider_id: &str) -> (r: Vec<Line>)
    ensures
        lines_view(r@) == model_detail_spec(
            *model,
            match provider {
                Some(p) => Some(*p),
                None => None,
            },
            provider_id@,
        ),
{
    let provider_name: &str = match provider {
        Some(p) => p.name.as_str(),
        None => provider_id,
    };
    let mut lines: Vec<Line> = Vec::new();
    assert(lines_view(lines@) =~= Seq::<Seq<(Seq<char>, Tone)>>::empty());
    push_model_heading(&mut lines, model, provider_name);
    push_cost_section(&mut lines, model);
    push_limit_section(&mut lines, model);
    push_metadata_section(&mut lines, model);
    lines
}

/// The title bar: the site's name, and in a provider's list also the
/// provider's name.
pub open spec fn title_spec(app: &App) -> Seq<char> {
    match app.view {
        View::Level1 => " models.dev"@,
        View::Level2 { provider_id } => match value_for(app.data@, provider_id@) {
            Some(p) => " models.dev > "@ + p.name@,
            None => " models.dev"@,
        },
    }
}

/// The title bar's text.
pub fn title_text(app: &App) -> (r: String)
    requires
        catalogue_keys_distinct(app.data@),
    ensures
        r@ == title_spec(app),
{
    match &app.view {
        View::Level1 => string_of(" models.dev"),
        View::Level2 { provider_id } => match app.get_provider(provider_id.as_str()) {
            Some(p) => string_of(" models.dev > ").concat(p.name.as_str()),
            None => string_of(" models.dev"),
        },
    }
}

/// The key help shown in the footer.
pub fn footer_text(view: &View) -> (r: &'static str)
    ensures
        r@ == match view {
            View::Level1 => " ↑↓ Navigate │ Enter: Drill into provider │ Esc: Quit │ PgUp/PgDn: Scroll details │ q: Quit"@,
            View::Level2 { .. } => " ↑↓ Navigate │ Enter: View model │ Esc: Back │ PgUp/PgDn: Scroll details │ q: Quit"@,
        },
{
    match view {
        View::Level1 => " ↑↓ Navigate │ Enter: Drill into provider │ Esc: Quit │ PgUp/PgDn: Scroll details │ q: Quit",
        View::Level2 { .. } => " ↑↓ Navigate │ Enter: View model │ Esc: Back │ PgUp/PgDn: Scroll details │ q: Quit",
    }
}

/// The search field's title.
pub open spec fn search_title_spec(app: &App) -> Seq<char> {
    match app.view {
        View::Level1 => " Search providers & models"@,
        View::Level2 { provider_id } => match value_for(app.data@, provider_id@) {
            Some(p) => " Search models in "@ + p.name@,
            None => " Search models"@,
        },
    }
}

/// The search field's title.
pub fn search_title(app: &App) -> (r: String)
    requires
        catalogue_keys_distinct(app.data@),
    ensures
        r@ == search_title_spec(app),
{
    match &app.view {
        View::Level1 => string_of(" Search providers & models"),
        View::Level2 { provider_id } => match app.get_provider(provider_id.as_str()) {
            Some(p) => string_of(" Search models in ").concat(p.name.as_str()),
            None => string_of(" Search models"),
        },
    }
}

/// How far the search text scrolls in a field `area_width` columns wide (less
/// the borders and a margin), and the cursor's column within the shown text.
pub fn search_scroll_and_cursor(app: &App, area_width: u16) -> (r: (usize, usize))
    ensures
        ({
            let input = app.input_of();
            let width = if area_width >= 4 { area_width - 4 } else { 0 };
            let scroll = visual_scroll_of(input.value@, input.cursor as nat, width as nat);
            let cursor = visual_cursor_of(input.value@, input.cursor as nat);
            &&& r.0 as nat == scroll
            &&& r.1 as nat == (if cursor >= scroll { cursor - scroll } else { 0 })
        }),
{
    let input = app.current_input();
    let width = area_width.saturating_sub(4) as usize;
    let scroll = input.visual_scroll(width);
    let cursor = input.visual_cursor();
    let shown = if cursor >= scroll { cursor } else { scroll };
    (scroll, shown - scroll)
}

/// The line for a list entry: a provider in cyan, tagged; a model in white,
/// followed in the first list by its provider's name.
pub open spec fn item_line_spec(item: ListItemView, level1: bool) -> Seq<(Seq<char>, Tone)> {
    match item {
        ListItemView::Provider { name, .. } => seq![
            ("▸ "@, Tone::Accent),
            (name, Tone::AccentBold),
            (" [provider]"@, Tone::Muted),
        ],
        ListItemView::Model { model_name, provider_name, .. } => seq![("  "@, Tone::Plain), (model_name, Tone::Text)]
            + (if level1 { seq![(" ("@ + provider_name + ")"@, Tone::Muted)] } else { Seq::empty() }),
    }
}

/// The list's lines, one per entry.
pub open spec fn list_lines_spec(app: &App) -> Seq<Seq<(Seq<char>, Tone)>> {
    item_views(app.filtered_items@).map_values(|it: ListItemView| item_line_spec(it, app.view is Level1))
}

fn item_line(item: &ListItem, level1: bool) -> (r: Line)
    ensures
        r@ == item_line_spec(item@, level1),
{
    match item {
        ListItem::Provider { name, .. } => line3(
            string_of("▸ "),
            Tone::Accent,
            string_of(name.as_str()),
            Tone::AccentBold,
            string_of(" [provider]"),
            Tone::Muted,
        ),
        ListItem::Model { model_name, provider_name, .. } => {
            if level1 {
                line3(
                    string_of("  "),
                    Tone::Plain,
                    string_of(model_name.as_str()),
                    Tone::Text,
                    string_of(" (").concat(provider_name.as_str()).concat(")"),
                    Tone::Muted,
                )
            } else {
                let r = line2(string_of("  "), Tone::Plain, string_of(model_name.as_str()), Tone::Text);
                assert(r@ =~= item_line_spec(item@, level1));
                r
            }
        },
    }
}

/// The list's lines.
pub fn list_lines(app: &App) -> (r: Vec<Line>)
    ensures
        lines_view(r@) == list_lines_spec(app),
{
    let level1 = match app.view {
        View::Level1 => true,
        View::Level2 { .. } => false,
    };
    let mut lines: Vec<Line> = Vec::new();
    let ghost all = list_lines_spec(app);
    assert(lines_view(lines@) =~= all.take(0));
    for i in 0..app.filtered_items.len()
        invariant
            all == list_lines_spec(app),
            level1 == (app.view is Level1),
            lines_view(lines@) == all.take(i as int),
    {
        push_line(&mut lines, item_line(&app.filtered_items[i], level1));
        assert(all.take(i + 1) =~= all.take(i as int).push(all[i as int]));
    }
    assert(all.take(app.filtered_items@.len() as int) =~= all);
    lines
}

/// The list's title, with the number of entries.
pub open spec fn list_title_spec(app: &App) -> Seq<char> {
    let n = decimal(app.filtered_items@.len());
    match app.view {
        View::Level1 => " Providers & Models ("@ + n + ")"@,
        View::Level2 { .. } => " Models ("@ + n + ")"@,
    }
}

/// The list's title.
pub fn list_title(app: &App) -> (r: String)
    ensures
        r@ == list_title_spec(app),
{
    let n = decimal_string(app.filtered_items.len() as u64);
    match app.view {
        View::Level1 => string_of(" Providers & Models (").concat(n.as_str()).concat(")"),
        View::Level2 { .. } => string_of(" Models (").concat(n.as_str()).concat(")"),
    }
}

/// The detail panel for the selected entry: the provider's or model's details,
/// a note when it is not in the catalogue, or an empty line when nothing is
/// selected.
pub open spec fn detail_lines_spec(app: &App) -> Seq<Seq<(Seq<char>, Tone)>> {
    match selected_item(app.list_state, app.filtered_items@) {
        Some(ListItem::Provider { id, .. }) => match value_for(app.data@, id@) {
            Some(p) => provider_detail_spec(p),
            None => seq![seq![("Provider not found"@, Tone::Plain)]],
        },
        Some(ListItem::Model { provider_id, model_id, .. }) => match model_for(app.data@, provider_id@, model_id@) {
            Some(m) => model_detail_spec(m, value_for(app.data@, provider_id@), provider_id@),
            None => seq![seq![("Model not found"@, Tone::Plain)]],
        },
        None => seq![blank()],
    }
}

/// The detail panel's lines.
pub fn detail_lines(app: &App) -> (r: Vec<Line>)
    requires
        catalogue_keys_distinct(app.data@),
    ensures
        lines_view(r@) == detail_lines_spec(app),
{
    let mut lines: Vec<Line> = Vec::new();
    assert(lines_view(lines@) =~= Seq::<Seq<(Seq<char>, Tone)>>::empty());
    match app.get_selected() {
        Some(ListItem::Provider { id, .. }) => match app.get_provider(id.as_str()) {
            Some(provider) => {
                return render_provider_detail(provider);
            },
            None => push_line(&mut lines, line1(string_of("Provider not found"), Tone::Plain)),
        },
        Some(ListItem::Model { provider_id, model_id, .. }) => match app.get_model(provider_id.as_str(), model_id.as_str()) {
            Some(model) => {
                let provider = app.get_provider(provider_id.as_str());
                return render_model_detail(model, provider, provider_id.as_str());
            },
            None => push_line(&mut lines, line1(string_of("Model not found"), Tone::Plain)),
        },
        None => push_line(&mut lines, blank_line()),
    }
    lines
}

/// The display width of a text, as ratatui measures a span.
pub uninterp spec fn display_width(s: Seq<char>) -> usize;

/// Calls ratatui's `Span::width` (the Unicode display width of the text); the
/// result is named `display_width`.
#[verifier::external_body]
fn span_width(s: &str) -> (r: usize)
    ensures
        r == display_width(s@),
{
    TermSpan::raw(s).width()
}

/// The display width of a line: the sum of its spans' widths (wrapping on
/// overflow, as a release build's sum does).
pub open spec fn line_width_spec(line: Seq<(Seq<char>, Tone)>) -> usize
    decreases line.len(),
{
    if line.len() == 0 {
        0
    } else {
        line_width_spec(line.drop_last()).wrapping_add(display_width(line.last().0))
    }
}

/// The display width of a line.
pub fn line_width(line: &Line) -> (r: usize)
    ensures
        r == line_width_spec(line@),
{
    let mut w: usize = 0;
    let ghost v = line@;
    assert(v.take(0) =~= Seq::<(Seq<char>, Tone)>::empty());
    for i in 0..line.spans.len()
        invariant
            v == line@,
            w == line_width_spec(v.take(i as int)),
    {
        assert(v.take(i + 1).drop_last() =~= v.take(i as int));
        assert(v.take(i + 1).last() == line.spans@[i as int]@);
        w = w.wrapping_add(span_width(line.spans[i].text.as_str()));
    }
    assert(v.take(line.spans@.len() as int) =~= v);
    w
}

/// The rows that a line of width `width` takes when wrapped at `content_width`
/// columns: one row for no columns, else the rows that its characters past
/// the first fill, plus one; kept to 16 bits as the screen's counters are.
pub open spec fn rows_for(width: usize, content_width: usize) -> u16 {
    if content_width == 0 {
        1
    } else {
        ((if width >= 1 { width - 1 } else { 0 }) / (content_width as int) + 1) as u16
    }
}

/// The rows that `lines` take when wrapped (summed in 16 bits, wrapping on
/// overflow as a release build's sum does).
pub open spec fn wrapped_rows_spec(lines: Seq<Seq<(Seq<char>, Tone)>>, content_width: usize) -> u16
    decreases lines.len(),
{
    if lines.len() == 0 {
        0
    } else {
        wrapped_rows_spec(lines.drop_last(), content_width).wrapping_add(
            rows_for(line_width_spec(lines.last()), content_width),
        )
    }
}

/// The rows that `lines` take when wrapped at `content_width` columns.
pub fn wrapped_rows(lines: &Vec<Line>, content_width: usize) -> (r: u16)
    ensures
        r == wrapped_rows_spec(lines_view(lines@), content_width),
{
    let mut total: u16 = 0;
    let ghost v = lines_view(lines@);
    assert(v.take(0) =~= Seq::<Seq<(Seq<char>, Tone)>>::empty());
    for i in 0..lines.len()
        invariant
            v == lines_view(lines@),
            total == wrapped_rows_spec(v.take(i as int), content_width),
    {
        assert(v.take(i + 1).drop_last() =~= v.take(i as int));
        assert(v.take(i + 1).last() == lines@[i as int]@);
        let width = line_width(&lines[i]);
        let rows: u16 = if content_width == 0 {
            1
        } else {
            (width.saturating_sub(1) / content_width + 1) as u16
        };
        total = total.wrapping_add(rows);
    }
    assert(v.take(lines@.len() as int) =~= v);
    total
}

impl App {
    /// Lays out the detail panel in an area of `area_width` by `area_height`
    /// cells (borders included): records the panel's inner height and its
    /// content's wrapped height, keeps the scroll within them, and returns the
    /// lines to show.
    pub fn layout_detail(&mut self, area_width: u16, area_height: u16) -> (r: Vec<Line>)
        requires
            catalogue_keys_distinct(old(self).data@),
        ensures
            lines_view(r@) == detail_lines_spec(old(self)),
            final(self).detail_height == (if area_height >= 2 { area_height - 2 } else { 0 }),
            final(self).detail_content_height == wrapped_rows_spec(
                detail_lines_spec(old(self)),
                (if area_width >= 2 { area_width - 2 } else { 0 }) as usize,
            ),
            final(self).detail_scroll == clamped_scroll(
                old(self).detail_scroll,
                final(self).detail_content_height,
                final(self).detail_height,
            ),
            final(self).data == old(self).data,
            final(self).view == old(self).view,
            final(self).level1_input == old(self).level1_input,
            final(self).level2_input == old(self).level2_input,
            final(self).list_state == old(self).list_state,
            final(self).filtered_items == old(self).filtered_items,
            final(self).should_quit == old(self).should_quit,
            scroll_in_range(final(self)),
    {
        self.detail_height = area_height.saturating_sub(2);
        let lines = detail_lines(self);
        let content_width = area_width.saturating_sub(2) as usize;
        let total = wrapped_rows(&lines, content_width);
        self.detail_content_height = total;
        self.clamp_detail_scroll();
        lines
    }

    /// The detail panel's scrollbar, shown when the content is taller than the
    /// panel: the content's length, the panel's height, and the thumb's
    /// position (the scroll scaled from `0..=max_scroll` to `0..=length - 1`).
    pub fn scrollbar(&self) -> (r: Option<(usize, usize, usize)>)
        ensures
            r == scrollbar_spec(self.detail_scroll, self.detail_content_height, self.detail_height),
    {
        if self.detail_content_height <= self.detail_height {
            return None;
        }
        let max_scroll = self.detail_content_height.saturating_sub(self.detail_height) as usize;
        let content_len = self.detail_content_height as usize;
        let position = if max_scroll == 0 {
            0
        } else {
            let scroll = self.detail_scroll as usize;
            let span = content_len.saturating_sub(1);
            assert(scroll * span <= 65535 * 65535) by (nonlinear_arith)
                requires scroll <= 65535, span <= 65535;
            scroll * span / max_scroll
        };
        Some((content_len, self.detail_height as usize, position))
    }
}

/// The scrollbar for a panel `height` rows tall showing `content` rows scrolled
/// by `scroll` (see `App::scrollbar`).
pub open spec fn scrollbar_spec(scroll: u16, content: u16, height: u16) -> Option<(usize, usize, usize)> {
    if content <= height {
        None
    } else {
        let max_scroll = content - height;
        Some((content as usize, height as usize, (scroll * (content - 1) / max_scroll) as usize))
    }
}

/// When the scroll is in range, the scrollbar's thumb lies within its track:
/// at most the content's length less one.
pub proof fn lemma_scrollbar_thumb_in_track(scroll: u16, content: u16, height: u16)
    requires
        content > height,
        scroll <= content - height,
    ensures
        scrollbar_spec(scroll, content, height) matches Some((len, _, pos)) && pos <= len - 1,
{
    let max_scroll: int = content - height;
    let track: int = content - 1;
    assert(scroll * track <= max_scroll * track) by (nonlinear_arith)
        requires scroll <= max_scroll, track >= 0;
    assert(scroll * track / max_scroll <= track) by (nonlinear_arith)
        requires scroll * track <= max_scroll * track, max_scroll > 0, track >= 0;
    assert(scroll * track / max_scroll >= 0) by (nonlinear_arith)
        requires scroll * track >= 0, max_scroll > 0;
}

} // verus!
