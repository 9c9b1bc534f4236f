use vstd::prelude::*;

verus! {

/// A schedule value that is out of range.
#[derive(Clone, Copy, PartialEq, Eq, Structural, Debug)]
pub enum CreateCronError {
    IncorrectMinute,
    IncorrectHour,
    IncorrectDay,
}

impl CreateCronError {
    /// The message shown for this error: the bound that was broken.
    pub fn message(&self) -> (r: String)
        ensures
            *self == CreateCronError::IncorrectMinute ==> r@ == "minutes < 60"@,
            *self == CreateCronError::IncorrectHour ==> r@ == "hours < 24"@,
            *self == CreateCronError::IncorrectDay ==> r@ == "day < 7"@,
    {
        match self {
            CreateCronError::IncorrectMinute => String::from_str("minutes < 60"),
            CreateCronError::IncorrectHour => String::from_str("hours < 24"),
            CreateCronError::IncorrectDay => String::from_str("day < 7"),
        }
    }
}

/// The first bound that a schedule breaks, checked in the order minutes,
/// hours, days.
pub open spec fn schedule_check(hours: u8, minutes: u8, days: Seq<u8>) -> Result<(), CreateCronError> {
    if minutes >= 60 {
        Err(CreateCronError::IncorrectMinute)
    } else if hours >= 24 {
        Err(CreateCronError::IncorrectHour)
    } else if exists|i: int| 0 <= i < days.len() && (#[trigger] days[i]) >= 7 {
        Err(CreateCronError::IncorrectDay)
    } else {
        Ok(())
    }
}

/// Checks a schedule's values: minutes below 60, hours below 24, each day
/// (Monday is 0) below 7.
pub fn check_schedule(hours: u8, minutes: u8, days: &Vec<u8>) -> (r: Result<(), CreateCronError>)
    ensures
        r == schedule_check(hours, minutes, days@),
{
    if minutes >= 60 {
        return Err(CreateCronError::IncorrectMinute);
    }
    if hours >= 24 {
        return Err(CreateCronError::IncorrectHour);
    }
    let mut i: usize = 0;
    while i < days.len()
        invariant
            0 <= i <= days@.len(),
            minutes < 60,
            hours < 24,
            forall|j: int| 0 <= j < i ==> #[trigger] days@[j] < 7,
        decreases days@.len() - i,
    {
        if days[i] >= 7 {
            assert(days@[i as int] >= 7);
            return Err(CreateCronError::IncorrectDay);
        }
        i = i + 1;
    }
    Ok(())
}

pub open spec fn digit_char(n: int) -> char {
    if n == 0 {
        '0'
    } else if n == 1 {
        '1'
    } else if n == 2 {
        '2'
    } else if n == 3 {
        '3'
    } else if n == 4 {
        '4'
    } else if n == 5 {
        '5'
    } else if n == 6 {
        '6'
    } else if n == 7 {
        '7'
    } else if n == 8 {
        '8'
    } else {
        '9'
    }
}

pub open spec fn is_digit(c: char) -> bool {
    exists|n: int| 0 <= n < 10 && #[trigger] digit_char(n) == c
}

/// Decimal text of a number below 100, without leading zeros.
pub open spec fn decimal(n: nat) -> Seq<char> {
    if n < 10 {
        seq![digit_char(n as int)]
    } else {
        seq![digit_char((n / 10) as int), digit_char((n % 10) as int)]
    }
}

/// The weekdays of a schedule in the text: Monday as 1 to Sunday as 7,
/// separated by commas.
pub open spec fn day_list(days: Seq<u8>) -> Seq<char>
    decreases days.len(),
{
    if days.len() == 0 {
        Seq::empty()
    } else if days.len() == 1 {
        seq![digit_char(days[0] + 1)]
    } else {
        day_list(days.drop_last()) + seq![',', digit_char(days.last() + 1)]
    }
}

/// The cron text of a schedule: `0 <minutes> <hours> ? * <days>`.
pub open spec fn cron_text(hours: u8, minutes: u8, days: Seq<u8>) -> Seq<char> {
    seq!['0', ' '] + decimal(minutes as nat) + seq![' '] + decimal(hours as nat) + seq![
        ' ',
        '?',
        ' ',
        '*',
        ' ',
    ] + day_list(days)
}

fn digit_str(n: u8) -> (r: &'static str)
    requires
        n < 10,
    ensures
        r@ == seq![digit_char(n as int)],
{
    proof {
        reveal_strlit("0");
        reveal_strlit("1");
        reveal_strlit("2");
        reveal_strlit("3");
        reveal_strlit("4");
        reveal_strlit("5");
        reveal_strlit("6");
        reveal_strlit("7");
        reveal_strlit("8");
        reveal_strlit("9");
    }
    match n {
        0 => "0",
        1 => "1",
        2 => "2",
        3 => "3",
        4 => "4",
        5 => "5",
        6 => "6",
        7 => "7",
        8 => "8",
        _ => "9",
    }
}

fn push_decimal(s: &mut String, n: u8)
    requires
        n < 100,
    ensures
        final(s)@ == old(s)@ + decimal(n as nat),
{
    if n < 10 {
        s.append(digit_str(n));
    } else {
        s.append(digit_str(n / 10));
        s.append(digit_str(n % 10));
        assert(final(s)@ =~= old(s)@ + decimal(n as nat));
    }
}

/// The cron text of a schedule, or the first bound it breaks.
pub fn create_cron(hours: u8, minutes: u8, days: Vec<u8>) -> (r: Result<String, CreateCronError>)
    ensures
        schedule_check(hours, minutes, days@) is Err ==> r == Err::<String, CreateCronError>(
            schedule_check(hours, minutes, days@)->Err_0,
        ),
        schedule_check(hours, minutes, days@) is Ok ==> r is Ok && r->Ok_0@ == cron_text(
            hours,
            minutes,
            days@,
        ),
{
    match check_schedule(hours, minutes, &days) {
        Err(e) => {
            return Err(e);
        },
        Ok(()) => {},
    }
    let mut s = String::new();
    proof {
        reveal_strlit("0 ");
        reveal_strlit(" ");
        reveal_strlit(" ? * ");
        reveal_strlit(",");
    }
    s.append("0 ");
    push_decimal(&mut s, minutes);
    s.append(" ");
    push_decimal(&mut s, hours);
    s.append(" ? * ");
    let ghost head = s@;
    let mut i: usize = 0;
    while i < days.len()
        invariant
            0 <= i <= days@.len(),
            forall|j: int| 0 <= j < days@.len() ==> #[trigger] days@[j] < 7,
            s@ == head + day_list(days@.take(i as int)),
        decreases days@.len() - i,
    {
        let ghost before = s@;
        proof {
            reveal_strlit(",");
        }
        if i > 0 {
            s.append(",");
        }
        s.append(digit_str(days[i] + 1));
        proof {
            let t = days@.take(i + 1);
            assert(t.drop_last() =~= days@.take(i as int));
            assert(t.last() == days@[i as int]);
            assert(t[0] == days@[0]);
            if i == 0 {
                assert(days@.take(0) =~= Seq::<u8>::empty());
                assert(s@ =~= head + day_list(t));
            } else {
                assert(before == head + day_list(t.drop_last()));
                assert(s@ =~= before + seq![',', digit_char(t.last() + 1)]);
                assert(day_list(t) == day_list(t.drop_last()) + seq![',', digit_char(t.last() + 1)]);
                assert(s@ =~= head + day_list(t));
            }
        }
        assert(s@ =~= head + day_list(days@.take(i + 1)));
        i = i + 1;
    }
    assert(days@.take(days@.len() as int) =~= days@);
    assert(s@ =~= cron_text(hours, minutes, days@));
    Ok(s)
}

/// A schedule's hours, minutes and weekdays (Monday is 0).
#[derive(Debug, Clone, PartialEq, Eq)]
pub struct ScheduleEntry {
    pub hours: u8,
    pub minutes: u8,
    pub days: Vec<u8>,
}

/// The values of a schedule that cron text can hold: in range, with at
/// least one day.
pub open spec fn valid_cron(hours: u8, minutes: u8, days: Seq<u8>) -> bool {
    schedule_check(hours, minutes, days) is Ok && days.len() > 0
}

/// The decimal text of `n` stands at `pos` in `s`, up to `end`, and no digit
/// follows it.
pub open spec fn number_at(s: Seq<char>, pos: int, n: nat, end: int) -> bool {
    &&& n < 100
    &&& 0 <= pos <= end <= s.len()
    &&& s.subrange(pos, end) == decimal(n)
    &&& (end == s.len() || !is_digit(s[end]))
}

fn digit_value(c: char) -> (r: Option<u8>)
    ensures
        r matches Some(n) ==> n < 10 && digit_char(n as int) == c,
        r is None ==> !is_digit(c),
{
    match c {
        '0' => Some(0),
        '1' => Some(1),
        '2' => Some(2),
        '3' => Some(3),
        '4' => Some(4),
        '5' => Some(5),
        '6' => Some(6),
        '7' => Some(7),
        '8' => Some(8),
        '9' => Some(9),
        _ => None,
    }
}

proof fn lemma_digit_char_injective(a: int, b: int)
    requires
        0 <= a < 10,
        0 <= b < 10,
        digit_char(a) == digit_char(b),
    ensures
        a == b,
{
}

proof fn lemma_decimal_shape(n: nat)
    requires
        n < 100,
    ensures
        n < 10 ==> decimal(n).len() == 1 && decimal(n)[0] == digit_char(n as int),
        n >= 10 ==> decimal(n).len() == 2 && decimal(n)[0] == digit_char((n / 10) as int)
            && decimal(n)[1] == digit_char((n % 10) as int) && 1 <= n / 10 < 10,
        is_digit(decimal(n)[0]),
        decimal(n).len() == 2 ==> is_digit(decimal(n)[1]),
{
    if n < 10 {
        assert(digit_char(n as int) == decimal(n)[0]);
    } else {
        assert(digit_char((n / 10) as int) == decimal(n)[0]);
        assert(digit_char((n % 10) as int) == decimal(n)[1]);
    }
}

/// Only one number stands at a place in a text.
proof fn lemma_number_at_unique(s: Seq<char>, pos: int, n1: nat, e1: int, n2: nat, e2: int)
    requires
        number_at(s, pos, n1, e1),
        number_at(s, pos, n2, e2),
    ensures
        n1 == n2,
        e1 == e2,
{
    lemma_decimal_shape(n1);
    lemma_decimal_shape(n2);
    assert(s.subrange(pos, e1)[0] == s[pos]);
    assert(s.subrange(pos, e2)[0] == s[pos]);
    if e1 == pos + 1 && e2 == pos + 2 {
        assert(s.subrange(pos, e2)[1] == s[e1]);
    } else if e1 == pos + 2 && e2 == pos + 1 {
        assert(s.subrange(pos, e1)[1] == s[e2]);
    } else if n1 < 10 {
        lemma_digit_char_injective(n1 as int, n2 as int);
    } else {
        assert(s.subrange(pos, e1)[1] == s[pos + 1]);
        assert(s.subrange(pos, e2)[1] == s[pos + 1]);
        lemma_digit_char_injective((n1 / 10) as int, (n2 / 10) as int);
        lemma_digit_char_injective((n1 % 10) as int, (n2 % 10) as int);
    }
}

/// Reads the number of at most two digits, without a leading zero, that
/// stands at `pos`.
fn parse_number(s: &str, len: usize, pos: usize) -> (r: Option<(u8, usize)>)
    requires
        len == s@.len(),
        pos <= len,
    ensures
        r matches Some((n, end)) ==> number_at(s@, pos as int, n as nat, end as int),
        r is None ==> forall|n: nat, end: int| !#[trigger] number_at(s@, pos as int, n, end),
{
    if pos >= len {
        proof {
            assert forall|n: nat, end: int| !#[trigger] number_at(s@, pos as int, n, end) by {
                if n < 100 {
                    lemma_decimal_shape(n);
                }
            }
        }
        return None;
    }
    let d0 = match digit_value(s.get_char(pos)) {
        Some(d) => d,
        None => {
            proof {
                assert forall|n: nat, end: int| !#[trigger] number_at(s@, pos as int, n, end) by {
                    if number_at(s@, pos as int, n, end) {
                        lemma_decimal_shape(n);
                        assert(s@.subrange(pos as int, end)[0] == s@[pos as int]);
                    }
                }
            }
            return None;
        },
    };
    if pos + 1 < len {
        if let Some(d1) = digit_value(s.get_char(pos + 1)) {
            let third = pos + 2 < len && digit_value(s.get_char(pos + 2)).is_some();
            if d0 == 0 || third {
                proof {
                    assert forall|n: nat, end: int| !#[trigger] number_at(s@, pos as int, n, end) by {
                        if number_at(s@, pos as int, n, end) {
                            lemma_decimal_shape(n);
                            let t = s@.subrange(pos as int, end);
                            assert(t[0] == s@[pos as int]);
                            if n < 10 {
                                assert(is_digit(s@[pos + 1]));
                            } else {
                                assert(t[1] == s@[pos + 1]);
                                if d0 == 0 {
                                    lemma_digit_char_injective(0, (n / 10) as int);
                                } else {
                                    assert(is_digit(s@[pos + 2]));
                                }
                            }
                        }
                    }
                }
                return None;
            }
            let n: u8 = d0 * 10 + d1;
            proof {
                lemma_decimal_shape(n as nat);
                assert(n / 10 == d0 && n % 10 == d1);
                assert(s@.subrange(pos as int, pos + 2) =~= decimal(n as nat));
            }
            return Some((n, pos + 2));
        }
    }
    proof {
        lemma_decimal_shape(d0 as nat);
        assert(s@.subrange(pos as int, pos + 1) =~= decimal(d0 as nat));
    }
    Some((d0, pos + 1))
}

/// Weekdays that cron text can hold: at least one, each below 7.
pub open spec fn valid_days(days: Seq<u8>) -> bool {
    days.len() > 0 && forall|k: int| 0 <= k < days.len() ==> #[trigger] days[k] < 7
}

proof fn lemma_day_list_shape(d: Seq<u8>)
    requires
        d.len() > 0,
    ensures
        day_list(d).len() == 2 * d.len() - 1,
        forall|k: int| 0 <= k < d.len() ==> #[trigger] day_list(d)[2 * k] == digit_char(d[k] + 1),
        forall|k: int| 0 <= k < d.len() - 1 ==> #[trigger] day_list(d)[2 * k + 1] == ',',
    decreases d.len(),
{
    if d.len() > 1 {
        let e = d.drop_last();
        lemma_day_list_shape(e);
        assert forall|k: int| 0 <= k < d.len() implies #[trigger] day_list(d)[2 * k] == digit_char(
            d[k] + 1,
        ) by {
            if k < d.len() - 1 {
                assert(day_list(d)[2 * k] == day_list(e)[2 * k]);
            }
        }
        assert forall|k: int| 0 <= k < d.len() - 1 implies #[trigger] day_list(d)[2 * k + 1]
            == ',' by {
            if k < d.len() - 2 {
                assert(day_list(d)[2 * k + 1] == day_list(e)[2 * k + 1]);
            }
        }
    }
}

/// Reads the weekday list that fills `s` from `start` to its end.
fn parse_days(s: &str, len: usize, start: usize) -> (r: Option<Vec<u8>>)
    requires
        len == s@.len(),
        start <= len,
    ensures
        r matches Some(d) ==> valid_days(d@) && s@.subrange(start as int, len as int) == day_list(
            d@,
        ),
        r is None ==> forall|d: Seq<u8>|
            valid_days(d) ==> s@.subrange(start as int, len as int) != #[trigger] day_list(d),
{
    let ghost rest = s@.subrange(start as int, len as int);
    let mut days: Vec<u8> = Vec::new();
    let mut p: usize = start;
    loop
        invariant
            len == s@.len(),
            rest == s@.subrange(start as int, len as int),
            start <= p <= len,
            p == start + 2 * days@.len(),
            forall|k: int| 0 <= k < days@.len() ==> #[trigger] days@[k] < 7,
            s@.subrange(start as int, p as int) == (if days@.len() == 0 {
                Seq::<char>::empty()
            } else {
                day_list(days@) + seq![',']
            }),
            forall|d: Seq<u8>|
                valid_days(d) && rest == #[trigger] day_list(d) ==> days@.len() < d.len()
                    && days@ == d.take(days@.len() as int),
        decreases len - p,
    {
        let ghost k = days@.len() as int;
        if p >= len {
            proof {
                assert forall|d: Seq<u8>| valid_days(d) implies rest != #[trigger] day_list(d) by {
                    if rest == day_list(d) {
                        lemma_day_list_shape(d);
                    }
                }
            }
            return None;
        }
        let c = s.get_char(p);
        let v = match digit_value(c) {
            Some(v) => v,
            None => 0,
        };
        if v < 1 || v > 7 {
            proof {
                assert forall|d: Seq<u8>| valid_days(d) implies rest != #[trigger] day_list(d) by {
                    if rest == day_list(d) {
                        lemma_day_list_shape(d);
                        assert(rest[2 * k] == c);
                        assert(d[k] < 7);
                        assert(is_digit(c));
                        lemma_digit_char_injective(v as int, d[k] + 1);
                    }
                }
            }
            return None;
        }
        let ghost old_days = days@;
        days.push(v - 1);
        p = p + 1;
        proof {
            assert(digit_char(v as int) == c);
            assert(s@.subrange(start as int, p as int) =~= s@.subrange(start as int, p - 1).push(c));
            assert(days@.last() + 1 == v);
            if k == 0 {
                assert(days@ =~= seq![(v - 1) as u8]);
                assert(day_list(days@) == seq![digit_char(days@[0] + 1)]);
            } else {
                assert(days@.drop_last() =~= old_days);
                assert(day_list(days@) == day_list(old_days) + seq![',', digit_char(days@.last() + 1)]);
            }
            assert(s@.subrange(start as int, p as int) =~= day_list(days@));
            assert forall|d: Seq<u8>| valid_days(d) && rest == #[trigger] day_list(d) implies days@
                == d.take(days@.len() as int) by {
                lemma_day_list_shape(d);
                assert(rest[2 * k] == c);
                lemma_digit_char_injective(v as int, d[k] + 1);
                assert(days@ =~= d.take(days@.len() as int));
            }
        }
        if p == len {
            proof {
                assert(rest =~= day_list(days@));
            }
            return Some(days);
        }
        if s.get_char(p) != ',' {
            proof {
                assert forall|d: Seq<u8>| valid_days(d) implies rest != #[trigger] day_list(d) by {
                    if rest == day_list(d) {
                        lemma_day_list_shape(d);
                        assert(rest[2 * k + 1] == s@[p as int]);
                    }
                }
            }
            return None;
        }
        p = p + 1;
        proof {
            assert(s@.subrange(start as int, p as int) =~= day_list(days@) + seq![',']);
            assert forall|d: Seq<u8>| valid_days(d) && rest == #[trigger] day_list(d) implies days@.len()
                < d.len() by {
                lemma_day_list_shape(d);
            }
        }
    }
}

proof fn lemma_cron_text_parts(h: u8, m: u8, d: Seq<u8>)
    requires
        valid_cron(h, m, d),
    ensures
        ({
            let t = cron_text(h, m, d);
            let a = decimal(m as nat).len() as int;
            let b = decimal(h as nat).len() as int;
            &&& 1 <= a <= 2
            &&& 1 <= b <= 2
            &&& t.len() == 8 + a + b + day_list(d).len()
            &&& t[0] == '0'
            &&& t[1] == ' '
            &&& number_at(t, 2, m as nat, 2 + a)
            &&& t[2 + a] == ' '
            &&& number_at(t, 3 + a, h as nat, 3 + a + b)
            &&& t[3 + a + b] == ' '
            &&& t[4 + a + b] == '?'
            &&& t[5 + a + b] == ' '
            &&& t[6 + a + b] == '*'
            &&& t[7 + a + b] == ' '
            &&& t.subrange(8 + a + b, t.len() as int) == day_list(d)
        }),
{
    let t = cron_text(h, m, d);
    let a = decimal(m as nat).len() as int;
    let b = decimal(h as nat).len() as int;
    lemma_decimal_shape(m as nat);
    lemma_decimal_shape(h as nat);
    assert(t.subrange(2, 2 + a) =~= decimal(m as nat));
    assert(t.subrange(3 + a, 3 + a + b) =~= decimal(h as nat));
    assert(t.subrange(8 + a + b, t.len() as int) =~= day_list(d));
    assert(!is_digit(' ')) by {
        assert forall|n: int| 0 <= n < 10 implies #[trigger] digit_char(n) != ' ' by {}
    }
}

/// Reads cron text: `Some` exactly when the text is that of a schedule whose
/// values are in range and which has at least one day.
pub fn parse_cron_text(value: &str) -> (r: Option<ScheduleEntry>)
    ensures
        r matches Some(e) ==> valid_cron(e.hours, e.minutes, e.days@) && value@ == cron_text(
            e.hours,
            e.minutes,
            e.days@,
        ),
        r is None ==> forall|h: u8, m: u8, d: Seq<u8>|
            valid_cron(h, m, d) ==> value@ != #[trigger] cron_text(h, m, d),
{
    let ghost target = exists|g: (u8, u8, Seq<u8>)|
        valid_cron(g.0, g.1, g.2) && value@ == #[trigger] cron_text(g.0, g.1, g.2);
    let ghost g: (u8, u8, Seq<u8>) = if target {
        choose|g: (u8, u8, Seq<u8>)|
            valid_cron(g.0, g.1, g.2) && value@ == #[trigger] cron_text(g.0, g.1, g.2)
    } else {
        (0, 0, Seq::empty())
    };
    let ghost a = decimal(g.1 as nat).len() as int;
    let ghost b = decimal(g.0 as nat).len() as int;
    proof {
        if target {
            lemma_cron_text_parts(g.0, g.1, g.2);
        }
        assert(!target ==> forall|h: u8, m: u8, d: Seq<u8>|
            valid_cron(h, m, d) ==> value@ != #[trigger] cron_text(h, m, d)) by {
            if !target {
                assert forall|h: u8, m: u8, d: Seq<u8>| valid_cron(h, m, d) implies value@
                    != #[trigger] cron_text(h, m, d) by {
                    if value@ == cron_text(h, m, d) {
                        assert(valid_cron((h, m, d).0, (h, m, d).1, (h, m, d).2));
                    }
                }
            }
        }
    }
    let len = value.unicode_len();
    if len < 8 || value.get_char(0) != '0' || value.get_char(1) != ' ' {
        return None;
    }
    let (minutes, e1) = match parse_number(value, len, 2) {
        Some(x) => x,
        None => {
            proof {
                if target {
                    assert(number_at(value@, 2, g.1 as nat, 2 + a));
                }
            }
            return None;
        },
    };
    proof {
        if target {
            lemma_number_at_unique(value@, 2, minutes as nat, e1 as int, g.1 as nat, 2 + a);
        }
    }
    if minutes >= 60 || e1 >= len || value.get_char(e1) != ' ' {
        return None;
    }
    let (hours, e2) = match parse_number(value, len, e1 + 1) {
        Some(x) => x,
        None => {
            proof {
                if target {
                    assert(number_at(value@, 3 + a, g.0 as nat, 3 + a + b));
                }
            }
            return None;
        },
    };
    proof {
        if target {
            lemma_number_at_unique(value@, 3 + a, hours as nat, e2 as int, g.0 as nat, 3 + a + b);
        }
    }
    if hours >= 24 || len - e2 < 5 || value.get_char(e2) != ' ' || value.get_char(e2 + 1) != '?'
        || value.get_char(e2 + 2) != ' ' || value.get_char(e2 + 3) != '*' || value.get_char(e2 + 4)
        != ' ' {
        return None;
    }
    let days = match parse_days(value, len, e2 + 5) {
        Some(d) => d,
        None => {
            return None;
        },
    };
    let ghost t = cron_text(hours, minutes, days@);
    proof {
        lemma_decimal_shape(minutes as nat);
        lemma_decimal_shape(hours as nat);
        assert(value@.subrange(2, e1 as int) == decimal(minutes as nat));
        assert(value@.subrange(e1 + 1, e2 as int) == decimal(hours as nat));
        assert(value@ =~= t);
    }
    Some(ScheduleEntry { hours, minutes, days })
}

/// Reads cron text that `create_cron` made for a schedule with at least one
/// day.
pub fn parse_cron(value: &str) -> (r: ScheduleEntry)
    requires
        exists|h: u8, m: u8, d: Seq<u8>| valid_cron(h, m, d) && value@ == #[trigger] cron_text(h, m, d),
    ensures
        valid_cron(r.hours, r.minutes, r.days@),
        value@ == cron_text(r.hours, r.minutes, r.days@),
{
    match parse_cron_text(value) {
        Some(e) => e,
        None => ScheduleEntry { hours: 0, minutes: 0, days: Vec::new() },
    }
}

/// Cron text determines its schedule: reading what `create_cron` wrote for
/// a schedule with at least one day gives back that schedule.
pub proof fn lemma_cron_text_injective(h1: u8, m1: u8, d1: Seq<u8>, h2: u8, m2: u8, d2: Seq<u8>)
    requires
        valid_cron(h1, m1, d1),
        valid_cron(h2, m2, d2),
        cron_text(h1, m1, d1) == cron_text(h2, m2, d2),
    ensures
        h1 == h2,
        m1 == m2,
        d1 == d2,
{
    let t = cron_text(h1, m1, d1);
    lemma_cron_text_parts(h1, m1, d1);
    lemma_cron_text_parts(h2, m2, d2);
    let a1 = decimal(m1 as nat).len() as int;
    let a2 = decimal(m2 as nat).len() as int;
    lemma_number_at_unique(t, 2, m1 as nat, 2 + a1, m2 as nat, 2 + a2);
    let b1 = decimal(h1 as nat).len() as int;
    let b2 = decimal(h2 as nat).len() as int;
    lemma_number_at_unique(t, 3 + a1, h1 as nat, 3 + a1 + b1, h2 as nat, 3 + a1 + b2);
    lemma_day_list_shape(d1);
    lemma_day_list_shape(d2);
    assert(day_list(d1) == day_list(d2));
    assert forall|k: int| 0 <= k < d1.len() implies d1[k] == d2[k] by {
        assert(day_list(d1)[2 * k] == day_list(d2)[2 * k]);
        lemma_digit_char_injective(d1[k] + 1, d2[k] + 1);
    }
    assert(d1 =~= d2);
}

} // verus!
