//! Names of the files that hold stored balances: `DDMMYYYY_N.DAT`, where `N`
//! is a counter that grows by one with each file written.  Reading a counter
//! back out of a file name, and writing the name of the next file.

use vstd::prelude::*;
use vstd::string::*;
use chrono::NaiveDate;
use crate::client_model::CalendarDate;

verus! {

/// `c` is an ASCII decimal digit.
pub open spec fn is_digit(c: char) -> bool {
    '0' <= c && c <= '9'
}

/// The number that a sequence of decimal digits writes.
pub open spec fn digits_value(s: Seq<char>) -> int
    decreases s.len(),
{
    if s.len() == 0 {
        0
    } else {
        digits_value(s.drop_last()) * 10 + (s.last() as int - '0' as int)
    }
}

pub open spec fn all_digits(s: Seq<char>) -> bool {
    forall|i: int| 0 <= i < s.len() ==> is_digit(#[trigger] s[i])
}

/// What `str::parse::<u32>` gives: an optional `+` sign, then at least one
/// decimal digit and nothing else, for a value that fits in `u32`.
pub open spec fn parse_u32_spec(s: Seq<char>) -> Option<u32> {
    let d = if s.len() > 0 && s[0] == '+' { s.drop_first() } else { s };
    if d.len() > 0 && all_digits(d) && digits_value(d) <= u32::MAX {
        Some(digits_value(d) as u32)
    } else {
        None
    }
}

/// The digit that writes `d` (for `d < 10`).
pub open spec fn digit_char(d: nat) -> char {
    (d + '0' as nat) as char
}

/// The decimal text of a natural number, without leading zeros.
pub open spec fn decimal_text(n: nat) -> Seq<char>
    decreases n,
{
    if n < 10 {
        seq![digit_char(n)]
    } else {
        decimal_text(n / 10).push(digit_char(n % 10))
    }
}

/// The index of the last occurrence of `c` in `s`, or -1.
pub open spec fn last_index_of(s: Seq<char>, c: char) -> int
    decreases s.len(),
{
    if s.len() == 0 {
        -1
    } else if s.last() == c {
        s.len() - 1
    } else {
        last_index_of(s.drop_last(), c)
    }
}

/// `last_index_of` finds an occurrence, the last one.
pub proof fn lemma_last_index_of(s: Seq<char>, c: char)
    ensures
        -1 <= last_index_of(s, c) < s.len(),
        last_index_of(s, c) >= 0 ==> s[last_index_of(s, c)] == c,
        forall|j: int| last_index_of(s, c) < j < s.len() ==> s[j] != c,
    decreases s.len(),
{
    if s.len() > 0 && s.last() != c {
        lemma_last_index_of(s.drop_last(), c);
        assert forall|j: int| last_index_of(s, c) < j < s.len() implies s[j] != c by {
            if j < s.len() - 1 {
                assert(s[j] == s.drop_last()[j]);
            }
        }
    }
}

/// The text `.DAT`.
pub open spec fn dat_suffix() -> Seq<char> {
    seq!['.', 'D', 'A', 'T']
}

/// The file name's extension is `DAT`, in the sense of `Path::extension`:
/// the part after the last `.`, where that `.` is not the first character.
pub open spec fn has_dat_extension(name: Seq<char>) -> bool {
    let i = last_index_of(name, '.');
    &&& i > 0
    &&& name.subrange(i + 1, name.len() as int) == seq!['D', 'A', 'T']
}

/// The last piece of `s` split on `c`: what follows the last `c`, or all of
/// `s` where there is none.
pub open spec fn after_last(s: Seq<char>, c: char) -> Seq<char> {
    s.subrange(last_index_of(s, c) + 1, s.len() as int)
}

/// `s` with every occurrence of `.DAT` removed, scanning from the left.
pub open spec fn without_dat(s: Seq<char>) -> Seq<char>
    decreases s.len(),
{
    if s.len() == 0 {
        s
    } else if s.len() >= 4 && s.take(4) == dat_suffix() {
        without_dat(s.skip(4))
    } else {
        seq![s[0]] + without_dat(s.drop_first())
    }
}

/// The counter that a stored-balance file name carries, if any: for a name
/// with extension `DAT`, the last piece after `_`, with `.DAT` removed,
/// parsed as a `u32`.
pub open spec fn file_counter(name: Seq<char>) -> Option<u32> {
    if has_dat_extension(name) {
        parse_u32_spec(without_dat(after_last(name, '_')))
    } else {
        None
    }
}

/// The largest counter among the names, or 0.
pub open spec fn max_counter(names: Seq<Seq<char>>) -> u32
    decreases names.len(),
{
    if names.len() == 0 {
        0
    } else {
        let rest = max_counter(names.drop_last());
        match file_counter(names.last()) {
            Some(c) => if c > rest { c } else { rest },
            None => rest,
        }
    }
}

/// Two decimal digits writing `v` (for `v < 100`), as `%d` and `%m` write a
/// day and a month.
pub open spec fn two_digit_text(v: nat) -> Seq<char> {
    seq![digit_char(v / 10), digit_char(v % 10)]
}

/// The decimal text of `n`, zero-padded to at least four digits.
pub open spec fn four_digit_text(n: nat) -> Seq<char> {
    if n < 10000 {
        seq![
            digit_char(n / 1000),
            digit_char((n / 100) % 10),
            digit_char((n / 10) % 10),
            digit_char(n % 10),
        ]
    } else {
        decimal_text(n)
    }
}

/// A year as `%Y` writes it: four digits from 0 to 9999, and otherwise a
/// sign followed by at least four digits.
pub open spec fn year_text(year: int) -> Seq<char> {
    if 0 <= year < 10000 {
        four_digit_text(year as nat)
    } else if year < 0 {
        seq!['-'] + four_digit_text((-year) as nat)
    } else {
        seq!['+'] + four_digit_text(year as nat)
    }
}

/// A date as `%d%m%Y` writes it: day, month, year.
pub open spec fn date_stamp_text(date: CalendarDate) -> Seq<char> {
    two_digit_text(date.day as nat) + two_digit_text(date.month as nat) + year_text(date.year as int)
}

/// The name of the file that stores balances under the date stamp `date`
/// with counter `counter`, relative to the directory that holds the files.
pub open spec fn file_base_name(date: Seq<char>, counter: u32) -> Seq<char> {
    date + seq!['_'] + decimal_text(counter as nat) + dat_suffix()
}

/// The path of that file: `data/` and the base name.
pub open spec fn file_path(date: Seq<char>, counter: u32) -> Seq<char> {
    seq!['d', 'a', 't', 'a', '/'] + file_base_name(date, counter)
}

/// The decimal text of `n` is a non-empty run of digits that writes `n`.
pub proof fn lemma_decimal_text(n: nat)
    ensures
        decimal_text(n).len() > 0,
        all_digits(decimal_text(n)),
        digits_value(decimal_text(n)) == n,
    decreases n,
{
    let t = decimal_text(n);
    assert(digit_char(n % 10) as int == (n % 10) + '0' as int);
    if n < 10 {
        assert(t.drop_last() =~= Seq::<char>::empty());
        assert(digits_value(t.drop_last()) == 0);
        assert(t.last() == digit_char(n));
    } else {
        lemma_decimal_text(n / 10);
        let p = decimal_text(n / 10);
        assert(t.drop_last() =~= p);
        assert(t.last() == digit_char(n % 10));
        assert forall|i: int| 0 <= i < t.len() implies is_digit(#[trigger] t[i]) by {
            if i < p.len() {
                assert(t[i] == p[i]);
            }
        }
    }
}

/// Parsing the decimal text of a `u32` gives the number back.
pub proof fn lemma_parse_decimal_text(n: u32)
    ensures
        parse_u32_spec(decimal_text(n as nat)) == Some(n),
{
    lemma_decimal_text(n as nat);
    assert(is_digit(decimal_text(n as nat)[0]));
}

/// Where the last occurrence of `c` in a concatenation lies.
pub proof fn lemma_last_index_of_concat(a: Seq<char>, b: Seq<char>, c: char)
    ensures
        last_index_of(a + b, c) == if last_index_of(b, c) >= 0 {
            a.len() + last_index_of(b, c)
        } else {
            last_index_of(a, c)
        },
    decreases b.len(),
{
    if b.len() == 0 {
        assert(a + b =~= a);
    } else {
        assert((a + b).drop_last() =~= a + b.drop_last());
        assert((a + b).last() == b.last());
        lemma_last_index_of_concat(a, b.drop_last(), c);
    }
}

/// A text without `c` has no last occurrence of it.
pub proof fn lemma_last_index_of_absent(s: Seq<char>, c: char)
    requires
        forall|i: int| 0 <= i < s.len() ==> s[i] != c,
    ensures
        last_index_of(s, c) == -1,
{
    lemma_last_index_of(s, c);
}

/// Removing `.DAT` passes over a prefix without `.`.
pub proof fn lemma_without_dat_prefix(x: Seq<char>, y: Seq<char>)
    requires
        forall|i: int| 0 <= i < x.len() ==> x[i] != '.',
    ensures
        without_dat(x + y) == x + without_dat(y),
    decreases x.len(),
{
    if x.len() == 0 {
        assert(x + y =~= y);
    } else {
        let s = x + y;
        assert(s[0] == x[0]);
        assert(s.len() >= 4 ==> s.take(4)[0] == x[0]);
        assert(s.drop_first() =~= x.drop_first() + y);
        lemma_without_dat_prefix(x.drop_first(), y);
        assert(x + without_dat(y) =~= seq![x[0]] + (x.drop_first() + without_dat(y)));
    }
}

/// A stored-balance file name carries the counter it was written with.
pub proof fn lemma_file_counter_of_name(date: Seq<char>, counter: u32)
    ensures
        file_counter(file_base_name(date, counter)) == Some(counter),
{
    let t = decimal_text(counter as nat);
    let dat = dat_suffix();
    let name = file_base_name(date, counter);
    lemma_decimal_text(counter as nat);
    assert forall|i: int| 0 <= i < t.len() implies t[i] != '.' && t[i] != '_' by {
        assert(is_digit(t[i]));
    }
    // the last `.` is the one of `.DAT`
    let head = date + seq!['_'] + t;
    assert(name =~= head + dat);
    assert(last_index_of(dat, '.') == 0) by {
        assert(dat.drop_last() =~= seq!['.', 'D', 'A']);
        assert(dat.drop_last().drop_last() =~= seq!['.', 'D']);
        assert(dat.drop_last().drop_last().drop_last() =~= seq!['.']);
        reveal_with_fuel(last_index_of, 5);
    }
    lemma_last_index_of_concat(head, dat, '.');
    assert(name.subrange(head.len() as int + 1, name.len() as int) =~= seq!['D', 'A', 'T']);
    // the last `_` is the one after the date
    let tail = t + dat;
    assert(name =~= (date + seq!['_']) + tail);
    assert forall|i: int| 0 <= i < tail.len() implies tail[i] != '_' by {
        if i < t.len() {
            assert(tail[i] == t[i]);
        } else {
            assert(tail[i] == dat[i - t.len()]);
        }
    }
    lemma_last_index_of_absent(tail, '_');
    lemma_last_index_of_concat(date + seq!['_'], tail, '_');
    assert(last_index_of(date + seq!['_'], '_') == date.len()) by {
        assert((date + seq!['_']).last() == '_');
    }
    assert(after_last(name, '_') =~= tail);
    // removing `.DAT` leaves the digits
    lemma_without_dat_prefix(t, dat);
    assert(dat.take(4) =~= dat);
    assert(dat.skip(4) =~= Seq::<char>::empty());
    assert(without_dat(dat.skip(4)) =~= Seq::<char>::empty());
    assert(without_dat(dat) =~= Seq::<char>::empty());
    assert(without_dat(tail) =~= t);
    lemma_parse_decimal_text(counter);
}

/// No name carries a counter above `max_counter` of the names.
pub proof fn lemma_max_counter_bound(names: Seq<Seq<char>>)
    ensures
        forall|i: int|
            0 <= i < names.len() ==> (#[trigger] file_counter(names[i]) matches Some(c) ==> c
                <= max_counter(names)),
    decreases names.len(),
{
    if names.len() > 0 {
        lemma_max_counter_bound(names.drop_last());
        assert forall|i: int|
            0 <= i < names.len() implies (#[trigger] file_counter(names[i]) matches Some(c) ==> c
                <= max_counter(names)) by {
            if i < names.len() - 1 {
                assert(names[i] == names.drop_last()[i]);
            }
        }
    }
}

/// The next stored-balance file takes a counter that no existing file name
/// carries: its name differs from every existing name, and read back among
/// them it is the new largest counter, one past the old one.
pub proof fn lemma_next_file_counter(names: Seq<Seq<char>>, date: Seq<char>)
    requires
        max_counter(names) < u32::MAX,
    ensures
        ({
            let next = (max_counter(names) + 1) as u32;
            let name = file_base_name(date, next);
            &&& file_counter(name) == Some(next)
            &&& max_counter(names.push(name)) == next
            &&& forall|i: int| 0 <= i < names.len() ==> names[i] != name
        }),
{
    let next = (max_counter(names) + 1) as u32;
    let name = file_base_name(date, next);
    lemma_file_counter_of_name(date, next);
    lemma_max_counter_bound(names);
    assert(names.push(name).drop_last() =~= names);
    assert forall|i: int| 0 <= i < names.len() implies names[i] != name by {
        if names[i] == name {
            assert(file_counter(names[i]) == Some(next));
        }
    }
}

/// Parsing refuses any character that is not a decimal digit, but for a
/// leading `+`.
pub proof fn lemma_parse_rejects_non_digits(s: Seq<char>, i: int)
    requires
        0 <= i < s.len(),
        !is_digit(s[i]),
        !(i == 0 && s[i] == '+'),
    ensures
        parse_u32_spec(s) is None,
{
    if s.len() > 0 && s[0] == '+' {
        assert(s.drop_first()[i - 1] == s[i]);
    }
}

/// A `+` before the decimal text of a number parses to the number.
pub proof fn lemma_parse_signed_decimal_text(n: u32)
    ensures
        parse_u32_spec(seq!['+'] + decimal_text(n as nat)) == Some(n),
{
    lemma_decimal_text(n as nat);
    assert((seq!['+'] + decimal_text(n as nat)).drop_first() =~= decimal_text(n as nat));
}

/// A file name that does not end in `.DAT` carries no counter.
pub proof fn lemma_counter_needs_dat_ending(name: Seq<char>)
    requires
        name.len() < 5 || name.subrange(name.len() - 4, name.len() as int) != dat_suffix(),
    ensures
        file_counter(name) is None,
{
    lemma_last_index_of(name, '.');
    let i = last_index_of(name, '.');
    if has_dat_extension(name) {
        let ext = name.subrange(i + 1, name.len() as int);
        assert(ext.len() == 3);
        assert(name.subrange(name.len() - 4, name.len() as int) =~= dat_suffix()) by {
            assert(name[i] == '.');
            assert(name[i + 1] == ext[0]);
            assert(name[i + 2] == ext[1]);
            assert(name[i + 3] == ext[2]);
        }
    }
}

/// Appends one character to a string, with `String::push`.
/// Claimed: the string's characters afterwards are the old ones followed by
/// `c`.
#[verifier::external_body]
pub(crate) fn push_char(s: &mut String, c: char)
    ensures
        final(s)@ == old(s)@.push(c),
{
    s.push(c);
}

/// The characters of a string slice, in order.
pub fn chars_of(s: &str) -> (v: Vec<char>)
    ensures
        v@ == s@,
{
    let n = s.unicode_len();
    let mut v: Vec<char> = Vec::new();
    let mut i: usize = 0;
    while i < n
        invariant
            n == s@.len(),
            i <= n,
            v@ == s@.take(i as int),
        decreases n - i,
    {
        let c = s.get_char(i);
        v.push(c);
        i = i + 1;
        assert(v@ =~= s@.take(i as int));
    }
    assert(v@ =~= s@);
    v
}

/// The index of the last occurrence of `c` in `v`.
fn last_index(v: &Vec<char>, c: char) -> (r: Option<usize>)
    ensures
        match r {
            Some(i) => i == last_index_of(v@, c),
            None => last_index_of(v@, c) == -1,
        },
{
    let mut i: usize = v.len();
    assert(v@.take(i as int) =~= v@);
    while i > 0
        invariant
            i <= v.len(),
            last_index_of(v@, c) == last_index_of(v@.take(i as int), c),
        decreases i,
    {
        assert(v@.take(i as int).drop_last() =~= v@.take(i - 1));
        if v[i - 1] == c {
            return Some(i - 1);
        }
        i = i - 1;
    }
    None
}

/// `v` with every `.DAT` removed, scanning from the left.
fn remove_dat(v: &Vec<char>) -> (r: Vec<char>)
    ensures
        r@ == without_dat(v@),
{
    let mut r: Vec<char> = Vec::new();
    let mut i: usize = 0;
    assert(v@.skip(0) =~= v@);
    while i < v.len()
        invariant
            i <= v.len(),
            r@ + without_dat(v@.skip(i as int)) == without_dat(v@),
        decreases v.len() - i,
    {
        let ghost rest = v@.skip(i as int);
        if v.len() - i >= 4 && v[i] == '.' && v[i + 1] == 'D' && v[i + 2] == 'A' && v[i + 3] == 'T' {
            assert(rest.take(4) =~= dat_suffix());
            assert(rest.skip(4) =~= v@.skip(i + 4));
            i = i + 4;
        } else {
            assert(rest.len() >= 4 ==> rest.take(4) != dat_suffix()) by {
                if rest.len() >= 4 && rest.take(4) == dat_suffix() {
                    assert(rest.take(4)[0] == '.');
                    assert(rest.take(4)[1] == 'D');
                    assert(rest.take(4)[2] == 'A');
                    assert(rest.take(4)[3] == 'T');
                }
            }
            assert(rest.drop_first() =~= v@.skip(i + 1));
            r.push(v[i]);
            assert(r@ + without_dat(v@.skip(i + 1)) =~= (r@.drop_last() + seq![rest[0]]) + without_dat(rest.drop_first()));
            i = i + 1;
        }
    }
    assert(v@.skip(i as int) =~= Seq::<char>::empty());
    assert(r@ + without_dat(v@.skip(i as int)) =~= r@);
    r
}

/// One more digit of a prefix: its value and its being all digits.
proof fn lemma_digits_step(d: Seq<char>, k: int)
    requires
        0 <= k < d.len(),
        all_digits(d.take(k)),
        is_digit(d[k]),
    ensures
        digits_value(d.take(k + 1)) == digits_value(d.take(k)) * 10 + (d[k] as int - '0' as int),
        all_digits(d.take(k + 1)),
{
    assert(d.take(k + 1).drop_last() =~= d.take(k));
    assert(d.take(k + 1).last() == d[k]);
    assert forall|j: int| 0 <= j < k + 1 implies is_digit(#[trigger] d.take(k + 1)[j]) by {
        if j < k {
            assert(d.take(k + 1)[j] == d.take(k)[j]);
        }
    }
}

/// Parses the characters as `str::parse::<u32>` does.
pub fn parse_u32(v: &Vec<char>) -> (r: Option<u32>)
    ensures
        r == parse_u32_spec(v@),
{
    let start: usize = if v.len() > 0 && v[0] == '+' { 1 } else { 0 };
    let ghost d = if v@.len() > 0 && v@[0] == '+' { v@.drop_first() } else { v@ };
    assert(d =~= v@.skip(start as int));
    if start == v.len() {
        return None;
    }
    let mut acc: u64 = 0;
    let mut overflow = false;
    let mut i: usize = start;
    while i < v.len()
        invariant
            start <= i <= v.len(),
            d == v@.skip(start as int),
            d == (if v@.len() > 0 && v@[0] == '+' { v@.drop_first() } else { v@ }),
            all_digits(d.take(i - start)),
            overflow ==> digits_value(d.take(i - start)) > u32::MAX,
            !overflow ==> acc == digits_value(d.take(i - start)),
            acc <= u32::MAX,
        decreases v.len() - i,
    {
        let c = v[i];
        let ghost k = (i - start) as int;
        assert(d[k] == c);
        if !('0' <= c && c <= '9') {
            assert(!is_digit(d[k]));
            assert(!all_digits(d));
            return None;
        }
        proof {
            lemma_digits_step(d, k);
        }
        if !overflow {
            let digit: u64 = (c as u64) - ('0' as u64);
            let next: u64 = acc * 10 + digit;
            if next > 0xFFFF_FFFF {
                overflow = true;
            } else {
                acc = next;
            }
        }
        i = i + 1;
    }
    assert(d.take(d.len() as int) =~= d);
    if overflow {
        None
    } else {
        Some(acc as u32)
    }
}

/// The counter that a stored-balance file name carries, if any.
pub fn counter_in_file_name(name: &str) -> (r: Option<u32>)
    ensures
        r == file_counter(name@),
{
    let chars = chars_of(name);
    let n = chars.len();
    let dot = last_index(&chars, '.');
    proof {
        lemma_last_index_of(chars@, '.');
    }
    match dot {
        Some(i) => {
            if i == 0 || n - i != 4 || chars[i + 1] != 'D' || chars[i + 2] != 'A' || chars[i + 3] != 'T' {
                proof {
                    let ext = chars@.subrange(i + 1, n as int);
                    if i != 0 && ext == seq!['D', 'A', 'T'] {
                        assert(ext.len() == 3);
                        assert(ext[0] == chars@[i + 1]);
                        assert(ext[1] == chars@[i + 2]);
                        assert(ext[2] == chars@[i + 3]);
                    }
                }
                return None;
            }
            assert(chars@.subrange(i + 1, n as int) =~= seq!['D', 'A', 'T']);
        },
        None => {
            return None;
        },
    }
    proof {
        lemma_last_index_of(chars@, '_');
    }
    let start: usize = match last_index(&chars, '_') {
        Some(j) => j + 1,
        None => 0,
    };
    let mut piece: Vec<char> = Vec::new();
    let mut k: usize = start;
    while k < n
        invariant
            n == chars@.len(),
            start <= k <= n,
            piece@ == chars@.subrange(start as int, k as int),
        decreases n - k,
    {
        piece.push(chars[k]);
        k = k + 1;
        assert(piece@ =~= chars@.subrange(start as int, k as int));
    }
    assert(piece@ == after_last(name@, '_'));
    let trimmed = remove_dat(&piece);
    parse_u32(&trimmed)
}

/// Appends the decimal text of `n` to `s`.
pub(crate) fn push_decimal(s: &mut String, n: u32)
    ensures
        final(s)@ == old(s)@ + decimal_text(n as nat),
    decreases n,
{
    if n >= 10 {
        push_decimal(s, n / 10);
    }
    let d: u32 = n % 10;
    let c: char = ((d as u8) + 48u8) as char;
    assert(c == digit_char(d as nat));
    push_char(s, c);
    proof {
        if n >= 10 {
            assert(decimal_text(n as nat) == decimal_text((n / 10) as nat).push(digit_char(d as nat)));
        } else {
            assert(decimal_text(n as nat) == seq![digit_char(d as nat)]);
        }
        assert(final(s)@ =~= old(s)@ + decimal_text(n as nat));
    }
}

/// Builds the date with `chrono::NaiveDate::from_ymd_opt` and formats it
/// with `%d%m%Y`.  Claimed: for a valid date (the one case in which
/// `from_ymd_opt` gives a date), the text is the day and the month in two
/// digits each and the year as `%Y` writes it (chrono's `write_two` and
/// `write_year` with zero padding).
#[verifier::external_body]
fn format_date_stamp(date: CalendarDate) -> (r: String)
    requires
        date.is_valid(),
    ensures
        r@ == date_stamp_text(date),
{
    NaiveDate::from_ymd_opt(date.year, date.month, date.day).unwrap().format("%d%m%Y").to_string()
}

/// The path of the next stored-balance file: `data/`, the date stamp of
/// `today`, `_`, the counter one past `last_counter`, and `.DAT`.
pub fn balance_file_name(today: CalendarDate, last_counter: u32) -> (r: String)
    requires
        today.is_valid(),
        last_counter < u32::MAX,
    ensures
        r@ == file_path(date_stamp_text(today), (last_counter + 1) as u32),
{
    let stamp = format_date_stamp(today);
    let date_stamp = stamp.as_str();
    let mut s = String::new();
    push_char(&mut s, 'd');
    push_char(&mut s, 'a');
    push_char(&mut s, 't');
    push_char(&mut s, 'a');
    push_char(&mut s, '/');
    s.append(date_stamp);
    push_char(&mut s, '_');
    push_decimal(&mut s, last_counter + 1);
    push_char(&mut s, '.');
    push_char(&mut s, 'D');
    push_char(&mut s, 'A');
    push_char(&mut s, 'T');
    assert(s@ =~= file_path(date_stamp_text(today), (last_counter + 1) as u32));
    s
}

} // verus!
