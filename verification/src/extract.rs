//! What is read out of a book's own metadata before it reaches the catalog:
//! the ISBN among its identifiers, and the series that its title names.
use vstd::prelude::*;
use vstd::string::*;
use crate::catalog::text_of;
use crate::outside::{
    calendar_date_micros, first_day_of_year, parse_calendar_date, parse_rfc3339, rfc3339_micros,
    year_start_micros,
};
use crate::text::{
    chars_of, has_prefix_exact, push_range, starts_with_exact, trimmed, trimmed_chars,
};

verus! {

/// `s` without every repetition of `prefix` at its start.
pub open spec fn without_prefixes(s: Seq<char>, prefix: Seq<char>) -> Seq<char>
    decreases s.len(),
{
    if prefix.len() > 0 && starts_with_exact(s, prefix) {
        without_prefixes(s.skip(prefix.len() as int), prefix)
    } else {
        s
    }
}

/// The test that a character is a decimal digit.
pub open spec fn is_digit() -> spec_fn(char) -> bool {
    |c: char| '0' <= c <= '9'
}

/// The ISBN that an identifier holds: what follows `urn:isbn:`, or the
/// identifier's digits where there are ten or thirteen of them.
pub open spec fn isbn_in(identifier: Seq<char>) -> Option<Seq<char>> {
    let id = trimmed(identifier);
    let digits = id.filter(is_digit());
    if starts_with_exact(id, "urn:isbn:"@) {
        Some(without_prefixes(id, "urn:isbn:"@))
    } else if digits.len() == 10 || digits.len() == 13 {
        Some(digits)
    } else {
        None
    }
}

fn text_from(chars: &Vec<char>, from: usize, to: usize) -> (r: String)
    requires
        from <= to <= chars@.len(),
    ensures
        r@ == chars@.subrange(from as int, to as int),
{
    let mut out = String::new();
    push_range(&mut out, chars, from, to);
    out
}

/// Reads the ISBN out of one identifier of a book.
pub fn isbn_of(identifier: &str) -> (r: Option<String>)
    ensures
        text_of(r) == isbn_in(identifier@),
{
    let id = trimmed_chars(identifier);
    let n: usize = id.len();
    proof {
        reveal_strlit("urn:isbn:");
        assert(id@.skip(0) =~= id@);
    }
    if has_prefix_exact(&id, 0, "urn:isbn:") {
        let mut from: usize = 0;
        while has_prefix_exact(&id, from, "urn:isbn:")
            invariant
                from <= n == id@.len(),
                "urn:isbn:"@.len() == 9,
                without_prefixes(id@, "urn:isbn:"@) == without_prefixes(
                    id@.skip(from as int),
                    "urn:isbn:"@,
                ),
            decreases n - from,
        {
            proof {
                assert(id@.skip(from as int).skip(9) =~= id@.skip(from + 9));
            }
            from += 9;
        }
        proof {
            assert(id@.skip(from as int) =~= id@.subrange(from as int, n as int));
        }
        return Some(text_from(&id, from, n));
    }
    let mut digits: Vec<char> = Vec::new();
    let mut i: usize = 0;
    proof {
        reveal(Seq::filter);
        assert(id@.take(0).filter(is_digit()) =~= Seq::<char>::empty());
    }
    while i < n
        invariant
            i <= n == id@.len(),
            digits@ == id@.take(i as int).filter(is_digit()),
        decreases n - i,
    {
        proof {
            reveal(Seq::filter);
            assert(id@.take(i + 1).drop_last() =~= id@.take(i as int));
        }
        let c = id[i];
        if '0' <= c && c <= '9' {
            digits.push(c);
        }
        i += 1;
    }
    proof {
        assert(id@.take(n as int) =~= id@);
        assert(digits@.subrange(0, digits@.len() as int) =~= digits@);
    }
    if digits.len() == 10 || digits.len() == 13 {
        Some(text_from(&digits, 0, digits.len()))
    } else {
        None
    }
}

/// The ISBN of a book: that of the first identifier that holds one.
pub open spec fn first_isbn_in(identifiers: Seq<String>) -> Option<Seq<char>>
    decreases identifiers.len(),
{
    if identifiers.len() == 0 {
        None
    } else if isbn_in(identifiers[0]@) is Some {
        isbn_in(identifiers[0]@)
    } else {
        first_isbn_in(identifiers.skip(1))
    }
}

/// Reads the ISBN of a book out of its identifiers.
pub fn first_isbn(identifiers: &Vec<String>) -> (r: Option<String>)
    ensures
        text_of(r) == first_isbn_in(identifiers@),
{
    let mut i: usize = 0;
    proof {
        assert(identifiers@.skip(0) =~= identifiers@);
    }
    while i < identifiers.len()
        invariant
            i <= identifiers@.len(),
            first_isbn_in(identifiers@) == first_isbn_in(identifiers@.skip(i as int)),
        decreases identifiers@.len() - i,
    {
        let found = isbn_of(identifiers[i].as_str());
        proof {
            assert(identifiers@.skip(i as int)[0] == identifiers@[i as int]);
            assert(identifiers@.skip(i as int).skip(1) =~= identifiers@.skip(i + 1));
        }
        if found.is_some() {
            return found;
        }
        i += 1;
    }
    None
}

/// The index of the first `c` in `s` from `from` on, and the length of `s`
/// where there is none.
pub open spec fn index_of(s: Seq<char>, c: char, from: int) -> int
    decreases s.len() - from,
{
    if from >= s.len() {
        s.len() as int
    } else if s[from] == c {
        from
    } else {
        index_of(s, c, from + 1)
    }
}

/// The series that a title names in the form "Series #2 - Title": what
/// stands before the `#`, trimmed, where a `-` follows the `#` and
/// something stands before it.
pub open spec fn series_in_title(title: Seq<char>) -> Option<Seq<char>> {
    let t = trimmed(title);
    let hash = index_of(t, '#', 0);
    if hash < t.len() && index_of(t, '-', hash) < t.len() && trimmed(t.take(hash)).len() > 0 {
        Some(trimmed(t.take(hash)))
    } else {
        None
    }
}

fn find_char(s: &Vec<char>, c: char, from: usize) -> (r: usize)
    requires
        from <= s@.len(),
    ensures
        r == index_of(s@, c, from as int),
        from <= r <= s@.len(),
{
    let mut i: usize = from;
    while i < s.len() && s[i] != c
        invariant
            from <= i <= s@.len(),
            index_of(s@, c, from as int) == index_of(s@, c, i as int),
        decreases s@.len() - i,
    {
        i += 1;
    }
    i
}

/// Reads the series out of a title that names one.
pub fn series_from_title(title: &str) -> (r: Option<String>)
    ensures
        text_of(r) == series_in_title(title@),
{
    let t = trimmed_chars(title);
    let hash = find_char(&t, '#', 0);
    if hash >= t.len() {
        return None;
    }
    if find_char(&t, '-', hash) >= t.len() {
        return None;
    }
    let head = text_from(&t, 0, hash);
    let name = trimmed_chars(head.as_str());
    proof {
        assert(t@.subrange(0, hash as int) =~= t@.take(hash as int));
        assert(name@.subrange(0, name@.len() as int) =~= name@);
    }
    if name.len() == 0 {
        None
    } else {
        Some(text_from(&name, 0, name.len()))
    }
}

/// The test that a character is a digit or a point.
pub open spec fn is_number_part(c: char) -> bool {
    ('0' <= c <= '9') || c == '.'
}

/// The longest start of `s` that is made of digits and points.
pub open spec fn number_start(s: Seq<char>) -> Seq<char>
    decreases s.len(),
{
    if s.len() > 0 && is_number_part(s[0]) {
        seq![s[0]] + number_start(s.skip(1))
    } else {
        Seq::empty()
    }
}

/// The text of the series index that a title names after its first `#`.
pub open spec fn index_text_in_title(title: Seq<char>) -> Option<Seq<char>> {
    let hash = index_of(title, '#', 0);
    if hash < title.len() {
        Some(number_start(title.skip(hash + 1)))
    } else {
        None
    }
}

/// Reads the text of the series index out of a title: the digits and points
/// that follow its first `#`. Whether the text is a number is for the caller
/// to say.
pub fn series_index_text(title: &str) -> (r: Option<String>)
    ensures
        text_of(r) == index_text_in_title(title@),
{
    let s = chars_of(title);
    let hash = find_char(&s, '#', 0);
    if hash >= s.len() {
        return None;
    }
    let start: usize = hash + 1;
    let mut i: usize = start;
    let ghost rest = s@.skip(start as int);
    proof {
        assert(rest.skip(0) =~= rest);
        assert(s@.subrange(start as int, start as int) + number_start(rest) =~= number_start(rest));
    }
    while i < s.len() && (('0' <= s[i] && s[i] <= '9') || s[i] == '.')
        invariant
            start <= i <= s@.len(),
            rest == s@.skip(start as int),
            number_start(rest) == s@.subrange(start as int, i as int) + number_start(
                rest.skip(i - start),
            ),
        decreases s@.len() - i,
    {
        proof {
            let tail = rest.skip(i - start);
            assert(tail[0] == s@[i as int]);
            assert(tail.skip(1) =~= rest.skip(i + 1 - start));
            assert(s@.subrange(start as int, i as int) + (seq![tail[0]] + number_start(tail.skip(1)))
                =~= s@.subrange(start as int, i + 1) + number_start(tail.skip(1)));
        }
        i += 1;
    }
    proof {
        let tail = rest.skip(i - start);
        if i < s@.len() {
            assert(tail[0] == s@[i as int]);
        }
        assert(number_start(tail) =~= Seq::<char>::empty());
        assert(s@.subrange(start as int, i as int) + Seq::<char>::empty() =~= s@.subrange(
            start as int,
            i as int,
        ));
    }
    Some(text_from(&s, start, i))
}


/// The number that decimal digits stand for.
pub open spec fn digits_number(s: Seq<char>) -> int
    decreases s.len(),
{
    if s.len() == 0 {
        0
    } else {
        digits_number(s.drop_last()) * 10 + (s.last() as int - '0' as int)
    }
}

/// True when every character is a decimal digit.
pub open spec fn all_digits(s: Seq<char>) -> bool {
    forall|i: int| 0 <= i < s.len() ==> '0' <= #[trigger] s[i] <= '9'
}

/// The year that a text stands for: an optional sign and then decimal
/// digits, nothing else, that give a 32-bit number.
pub open spec fn year_number(text: Seq<char>) -> Option<i32> {
    let signed = text.len() > 0 && (text[0] == '-' || text[0] == '+');
    let digits = if signed {
        text.skip(1)
    } else {
        text
    };
    let number = if text.len() > 0 && text[0] == '-' {
        -digits_number(digits)
    } else {
        digits_number(digits)
    };
    if digits.len() > 0 && all_digits(digits) && i32::MIN <= number <= i32::MAX {
        Some(number as i32)
    } else {
        None
    }
}

/// Reads a year: an optional sign, then decimal digits.
pub fn parse_year(text: &str) -> (r: Option<i32>)
    ensures
        r == year_number(text@),
{
    let s = chars_of(text);
    let n: usize = s.len();
    let negative = n > 0 && s[0] == '-';
    let from: usize = if n > 0 && (s[0] == '-' || s[0] == '+') {
        1
    } else {
        0
    };
    let ghost digits = s@.skip(from as int);
    if from == n {
        return None;
    }
    let cap: i64 = 2147483648;
    let mut acc: i64 = 0;
    let mut i: usize = from;
    proof {
        assert(digits.take(0) =~= Seq::<char>::empty());
    }
    while i < n
        invariant
            from <= i <= n == s@.len(),
            s@ == text@,
            negative == (n > 0 && s@[0] == '-'),
            from == if n > 0 && (s@[0] == '-' || s@[0] == '+') {
                1int
            } else {
                0int
            },
            digits == s@.skip(from as int),
            cap == 2147483648,
            forall|j: int| 0 <= j < i - from ==> '0' <= #[trigger] digits[j] <= '9',
            0 <= acc <= cap * 10 + 9,
            0 <= digits_number(digits.take(i - from)),
            acc <= cap ==> acc == digits_number(digits.take(i - from)),
            acc > cap ==> digits_number(digits.take(i - from)) > cap,
        decreases n - i,
    {
        let c = s[i];
        proof {
            assert(digits[i - from] == c);
            assert(digits.take(i + 1 - from).drop_last() =~= digits.take(i - from));
            assert(digits.take(i + 1 - from).last() == c);
        }
        if !('0' <= c && c <= '9') {
            proof {
                assert(!('0' <= digits[i - from] <= '9'));
                assert(!all_digits(digits));
            }
            return None;
        }
        if acc <= cap {
            acc = acc * 10 + (c as u8 - 48) as i64;
        }
        i += 1;
    }
    proof {
        assert(digits.take(n - from) =~= digits);
        assert(all_digits(digits));
        if from == 0 {
            assert(digits =~= s@);
        }
    }
    if acc > cap {
        None
    } else if negative {
        Some((0 - acc) as i32)
    } else if acc <= 2147483647 {
        Some(acc as i32)
    } else {
        None
    }
}

/// The first of two readings that gives a date.
pub open spec fn or_else(first: Option<i64>, second: Option<i64>) -> Option<i64> {
    if first is Some {
        first
    } else {
        second
    }
}

/// The publication date that a book's metadata names, in microseconds since
/// 1970 in UTC. The trimmed text is read, in this order, as a date with time
/// and zone, as year, month and day, as day, month name and year, as day,
/// short month name and year, as year and month, and as a year; the
/// readings without a time give the start of the day, month or year.
pub open spec fn pubdate_in(text: Seq<char>) -> Option<i64> {
    let t = trimmed(text);
    or_else(
        rfc3339_micros(t),
        or_else(
            calendar_date_micros(t, "%Y-%m-%d"@),
            or_else(
                calendar_date_micros(t, "%d %B %Y"@),
                or_else(
                    calendar_date_micros(t, "%d %b %Y"@),
                    or_else(
                        calendar_date_micros(t + "-01"@, "%Y-%m-%d"@),
                        match year_number(t) {
                            Some(year) => year_start_micros(year),
                            None => None,
                        },
                    ),
                ),
            ),
        ),
    )
}

/// Reads the publication date that a book's metadata names.
pub fn read_pubdate(text: &str) -> (r: Option<i64>)
    ensures
        r == pubdate_in(text@),
{
    let chars = trimmed_chars(text);
    let t = text_from(&chars, 0, chars.len());
    proof {
        assert(chars@.subrange(0, chars@.len() as int) =~= chars@);
    }
    match parse_rfc3339(t.as_str()) {
        Some(at) => {
            return Some(at);
        },
        None => {},
    }
    match parse_calendar_date(t.as_str(), "%Y-%m-%d") {
        Some(at) => {
            return Some(at);
        },
        None => {},
    }
    match parse_calendar_date(t.as_str(), "%d %B %Y") {
        Some(at) => {
            return Some(at);
        },
        None => {},
    }
    match parse_calendar_date(t.as_str(), "%d %b %Y") {
        Some(at) => {
            return Some(at);
        },
        None => {},
    }
    let mut with_day = t.clone();
    with_day.append("-01");
    match parse_calendar_date(with_day.as_str(), "%Y-%m-%d") {
        Some(at) => {
            return Some(at);
        },
        None => {},
    }
    match parse_year(t.as_str()) {
        Some(year) => first_day_of_year(year),
        None => None,
    }
}

} // verus!
