//! The simplified five-field cron format of schedules: `minute hour day month
//! weekday`, each field a decimal `i32` or `*` for "any value".

use vstd::prelude::*;
use crate::text::{lemma_words_skip_ws, lemma_words_take_word, chars_of, parse_i32, parse_i32_spec, span_texts, spans_ok, split_whitespace, words};

verus! {

/// The parsed fields of a cron expression, in the order minute, hour, day,
/// month, weekday. `None` stands for `*`.
pub type CronParts = (Option<i32>, Option<i32>, Option<i32>, Option<i32>, Option<i32>);

/// Why a cron expression was refused.
#[derive(Debug, PartialEq, Eq)]
pub enum CronError {
    /// The expression does not have exactly five whitespace-separated fields.
    FieldCount,
    /// This field is neither `*` nor a decimal `i32`.
    InvalidValue(String),
}

/// The mathematical form of a [`CronError`].
pub enum CronErrorView {
    FieldCount,
    InvalidValue(Seq<char>),
}

impl View for CronError {
    type V = CronErrorView;

    open spec fn view(&self) -> CronErrorView {
        match self {
            CronError::FieldCount => CronErrorView::FieldCount,
            CronError::InvalidValue(s) => CronErrorView::InvalidValue(s@),
        }
    }
}

impl CronError {
    /// The message shown to users for this error.
    pub fn message(&self) -> (res: String)
        ensures
            self is FieldCount ==> res@ == "cron 表达式必须为 5 段：分 时 日 月 星期"@,
            self is InvalidValue ==> res@ == "无效的 cron 数值: "@ + self->InvalidValue_0@,
    {
        match self {
            CronError::FieldCount => "cron 表达式必须为 5 段：分 时 日 月 星期".to_string(),
            CronError::InvalidValue(s) => {
                let mut m = "无效的 cron 数值: ".to_string();
                m.append(s.as_str());
                m
            },
        }
    }
}

/// The wall-clock reading that schedules are matched against. `weekday`
/// counts from Monday = 0.
#[derive(Clone, Copy, Debug, PartialEq, Eq)]
pub struct CronTime {
    pub second: u32,
    pub minute: i32,
    pub hour: i32,
    pub day: i32,
    pub month: i32,
    pub weekday: i32,
}

/// One cron field: `*` is `Some(None)`, a decimal `i32` is `Some(Some(v))`,
/// anything else is refused (`None`).
pub open spec fn field_spec(tok: Seq<char>) -> Option<Option<i32>> {
    if tok == seq!['*'] {
        Some(None)
    } else {
        match parse_i32_spec(tok) {
            Some(v) => Some(Some(v)),
            None => None,
        }
    }
}

/// The meaning of a cron expression: its five words parsed in order; the
/// first field that does not parse is the one reported.
pub open spec fn parse_cron_spec(s: Seq<char>) -> Result<CronParts, CronErrorView> {
    let w = words(s);
    if w.len() != 5 {
        Err(CronErrorView::FieldCount)
    } else if field_spec(w[0]) is None {
        Err(CronErrorView::InvalidValue(w[0]))
    } else if field_spec(w[1]) is None {
        Err(CronErrorView::InvalidValue(w[1]))
    } else if field_spec(w[2]) is None {
        Err(CronErrorView::InvalidValue(w[2]))
    } else if field_spec(w[3]) is None {
        Err(CronErrorView::InvalidValue(w[3]))
    } else if field_spec(w[4]) is None {
        Err(CronErrorView::InvalidValue(w[4]))
    } else {
        Ok(
            (
                field_spec(w[0])->0,
                field_spec(w[1])->0,
                field_spec(w[2])->0,
                field_spec(w[3])->0,
                field_spec(w[4])->0,
            ),
        )
    }
}

/// A field accepts a value when it is `*` or equal to it.
pub open spec fn field_accepts(f: Option<i32>, v: i32) -> bool {
    match f {
        None => true,
        Some(x) => x == v,
    }
}

/// Whether a cron expression fires at `now`: it parses, and each of its
/// fields accepts the matching part of `now`.
pub open spec fn cron_matches_spec(s: Seq<char>, now: CronTime) -> bool {
    match parse_cron_spec(s) {
        Ok(p) => {
            &&& field_accepts(p.0, now.minute)
            &&& field_accepts(p.1, now.hour)
            &&& field_accepts(p.2, now.day)
            &&& field_accepts(p.3, now.month)
            &&& field_accepts(p.4, now.weekday)
        },
        Err(_) => false,
    }
}

/// Parses one field, the characters `s[span.0..span.1]`.
fn parse_part(s: &Vec<char>, span: (usize, usize)) -> (res: Option<Option<i32>>)
    requires
        span.0 <= span.1 <= s.len(),
    ensures
        res == field_spec(s@.subrange(span.0 as int, span.1 as int)),
{
    let ghost tok = s@.subrange(span.0 as int, span.1 as int);
    if span.1 - span.0 == 1 && s[span.0] == '*' {
        assert(tok =~= seq!['*']);
        return Some(None);
    }
    assert(tok != seq!['*']) by {
        if tok == seq!['*'] {
            assert(tok.len() == 1 && tok[0] == s@[span.0 as int]);
        }
    }
    match parse_i32(s, span.0, span.1) {
        Some(v) => Some(Some(v)),
        None => None,
    }
}

/// The text of `cron` between two character positions.
fn field_text(cron: &str, from: usize, to: usize) -> (res: String)
    requires
        from <= to <= cron@.len(),
    ensures
        res@ == cron@.subrange(from as int, to as int),
{
    let part = cron.substring_char(from, to);
    part.to_string()
}

/// Parses a cron expression `"minute hour day month weekday"`, where `*`
/// stands for any value.
pub fn parse_cron(cron: &str) -> (res: Result<CronParts, CronError>)
    ensures
        match res {
            Ok(p) => parse_cron_spec(cron@) == Ok::<CronParts, CronErrorView>(p),
            Err(e) => parse_cron_spec(cron@) == Err::<CronParts, CronErrorView>(e@),
        },
{
    let chars = chars_of(cron);
    let spans = split_whitespace(&chars);
    let ghost w = words(cron@);
    if spans.len() != 5 {
        return Err(CronError::FieldCount);
    }
    let mut fields: Vec<Option<i32>> = Vec::new();
    let mut k: usize = 0;
    while k < 5
        invariant
            k <= 5,
            spans.len() == 5,
            chars@ == cron@,
            span_texts(chars@, spans@) == w,
            w == words(cron@),
            forall|j: int| 0 <= j < spans@.len() ==> spans_ok(chars@, #[trigger] spans@[j]),
            fields@.len() == k,
            forall|j: int| 0 <= j < k ==> field_spec(#[trigger] w[j]) == Some(fields@[j]),
        decreases 5 - k,
    {
        let span = spans[k];
        assert(spans_ok(chars@, spans@[k as int]));
        assert(w[k as int] == chars@.subrange(span.0 as int, span.1 as int));
        match parse_part(&chars, span) {
            Some(f) => {
                fields.push(f);
            },
            None => {
                let text = field_text(cron, span.0, span.1);
                return Err(CronError::InvalidValue(text));
            },
        }
        k = k + 1;
    }
    assert(field_spec(w[0]) == Some(fields@[0]));
    assert(field_spec(w[1]) == Some(fields@[1]));
    assert(field_spec(w[2]) == Some(fields@[2]));
    assert(field_spec(w[3]) == Some(fields@[3]));
    assert(field_spec(w[4]) == Some(fields@[4]));
    Ok((fields[0], fields[1], fields[2], fields[3], fields[4]))
}

/// Checks that `cron` is a well-formed cron expression.
pub fn validate_cron(cron: &str) -> (res: Result<(), CronError>)
    ensures
        res is Ok <==> parse_cron_spec(cron@) is Ok,
        res matches Err(e) ==> parse_cron_spec(cron@) == Err::<CronParts, CronErrorView>(e@),
{
    match parse_cron(cron) {
        Ok(_) => Ok(()),
        Err(e) => Err(e),
    }
}

/// Whether a field accepts a value.
fn field_accepts_exec(f: Option<i32>, v: i32) -> (res: bool)
    ensures
        res == field_accepts(f, v),
{
    match f {
        None => true,
        Some(x) => x == v,
    }
}

/// Whether `cron` fires at `now`. An expression that does not parse never fires.
pub fn cron_matches(cron: &str, now: CronTime) -> (res: bool)
    ensures
        res == cron_matches_spec(cron@, now),
{
    let parsed = match parse_cron(cron) {
        Ok(p) => p,
        Err(_) => return false,
    };
    let (min, hour, day, month, weekday) = parsed;
    field_accepts_exec(min, now.minute) && field_accepts_exec(hour, now.hour)
        && field_accepts_exec(day, now.day) && field_accepts_exec(month, now.month)
        && field_accepts_exec(weekday, now.weekday)
}


/// An expression fires at `now` exactly when it parses and each of its five
/// fields, in the order minute, hour, day, month, weekday, is `*` or equal
/// to that part of `now`; in particular a numeric field that differs from
/// `now` keeps it from firing.
pub proof fn law_fires_iff_every_field_accepts(s: Seq<char>, now: CronTime)
    ensures
        cron_matches_spec(s, now) <==> (parse_cron_spec(s) matches Ok(p) && {
            &&& (p.0 is None || p.0 == Some(now.minute))
            &&& (p.1 is None || p.1 == Some(now.hour))
            &&& (p.2 is None || p.2 == Some(now.day))
            &&& (p.3 is None || p.3 == Some(now.month))
            &&& (p.4 is None || p.4 == Some(now.weekday))
        }),
{
}

/// The fields of a parsed expression are its five words in order, each `*`
/// or the decimal number it spells.
pub proof fn law_fields_are_the_words_in_order(s: Seq<char>)
    ensures
        parse_cron_spec(s) matches Ok(p) ==> {
            &&& words(s).len() == 5
            &&& (if words(s)[0] == seq!['*'] { p.0 is None } else { p.0 == parse_i32_spec(words(s)[0]) })
            &&& (if words(s)[1] == seq!['*'] { p.1 is None } else { p.1 == parse_i32_spec(words(s)[1]) })
            &&& (if words(s)[2] == seq!['*'] { p.2 is None } else { p.2 == parse_i32_spec(words(s)[2]) })
            &&& (if words(s)[3] == seq!['*'] { p.3 is None } else { p.3 == parse_i32_spec(words(s)[3]) })
            &&& (if words(s)[4] == seq!['*'] { p.4 is None } else { p.4 == parse_i32_spec(words(s)[4]) })
        },
{
}

/// An expression that does not parse never fires.
pub proof fn law_refused_cron_never_fires(s: Seq<char>, now: CronTime)
    requires
        parse_cron_spec(s) is Err,
    ensures
        !cron_matches_spec(s, now),
{
}

/// Five `*` fields fire at every moment.
pub proof fn law_all_stars_fire_always(now: CronTime)
    ensures
        cron_matches_spec("* * * * *"@, now),
{
    reveal_strlit("* * * * *");
    let s = "* * * * *"@;
    let star = seq!['*'];
    assert(s.len() == 9);
    assert(s.skip(0) =~= s);
    lemma_words_take_word(s, 0, 1);
    lemma_words_skip_ws(s, 1);
    lemma_words_take_word(s, 2, 3);
    lemma_words_skip_ws(s, 3);
    lemma_words_take_word(s, 4, 5);
    lemma_words_skip_ws(s, 5);
    lemma_words_take_word(s, 6, 7);
    lemma_words_skip_ws(s, 7);
    lemma_words_take_word(s, 8, 9);
    assert(s.skip(9).len() == 0);
    assert(s.subrange(0, 1) =~= star);
    assert(s.subrange(2, 3) =~= star);
    assert(s.subrange(4, 5) =~= star);
    assert(s.subrange(6, 7) =~= star);
    assert(s.subrange(8, 9) =~= star);
    assert(words(s) =~= seq![star, star, star, star, star]);
}

} // verus!
