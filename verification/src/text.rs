//! Text for people: hex dumps, printable characters, numbers, tables.
use vstd::prelude::*;
use vstd::string::*;

verus! {

/// [`String::push`] puts the character behind the text.
pub assume_specification[ String::push ](s: &mut String, c: char)
    ensures
        final(s)@ == old(s)@.push(c),
;

/// The hexadecimal digit of `d`, in lower case.
pub open spec fn hex_digit(d: int) -> char {
    if d == 0 { '0' } else if d == 1 { '1' } else if d == 2 { '2' } else if d == 3 { '3' }
    else if d == 4 { '4' } else if d == 5 { '5' } else if d == 6 { '6' } else if d == 7 { '7' }
    else if d == 8 { '8' } else if d == 9 { '9' } else if d == 10 { 'a' } else if d == 11 { 'b' }
    else if d == 12 { 'c' } else if d == 13 { 'd' } else if d == 14 { 'e' } else { 'f' }
}

/// Two hexadecimal digits per byte, bytes apart by one space.
pub open spec fn hex_text(data: Seq<u8>) -> Seq<char>
    decreases data.len(),
{
    if data.len() == 0 {
        Seq::empty()
    } else {
        let front = if data.len() == 1 {
            Seq::empty()
        } else {
            hex_text(data.drop_last()).push(' ')
        };
        front.push(hex_digit(data.last() as int / 16)).push(hex_digit(data.last() as int % 16))
    }
}

fn hex_char(d: u8) -> (c: char)
    requires
        d < 16,
    ensures
        c == hex_digit(d as int),
{
    match d {
        0 => '0',
        1 => '1',
        2 => '2',
        3 => '3',
        4 => '4',
        5 => '5',
        6 => '6',
        7 => '7',
        8 => '8',
        9 => '9',
        10 => 'a',
        11 => 'b',
        12 => 'c',
        13 => 'd',
        14 => 'e',
        _ => 'f',
    }
}

/// Hex dump: two lower-case digits per byte, separated by spaces.
pub fn hex(data: &[u8]) -> (text: String)
    ensures
        text@ == hex_text(data@),
{
    let mut text: String = String::new();
    let mut i: usize = 0;
    while i < data.len()
        invariant
            i <= data@.len(),
            text@ == hex_text(data@.take(i as int)),
        decreases data@.len() - i,
    {
        if i > 0 {
            text.push(' ');
        }
        text.push(hex_char(data[i] / 16));
        text.push(hex_char(data[i] % 16));
        proof {
            let next = data@.take(i + 1);
            assert(next.drop_last() =~= data@.take(i as int));
            assert(next.last() == data@[i as int]);
        }
        i = i + 1;
    }
    assert(data@.take(i as int) =~= data@);
    text
}

/// In a hex dump the digits of byte `i` stand at `3 * i`, and a space stands
/// between two bytes.
pub proof fn law_hex_layout(data: Seq<u8>, i: int)
    requires
        0 <= i < data.len(),
    ensures
        hex_text(data).len() == 3 * data.len() - 1,
        hex_text(data)[3 * i] == hex_digit(data[i] as int / 16),
        hex_text(data)[3 * i + 1] == hex_digit(data[i] as int % 16),
        i + 1 < data.len() ==> hex_text(data)[3 * i + 2] == ' ',
    decreases data.len(),
{
    let rest = data.drop_last();
    if i < rest.len() {
        law_hex_layout(rest, i);
        assert(rest[i] == data[i]);
    } else if rest.len() > 0 {
        law_hex_layout(rest, 0);
    }
}

/// Different bytes have different hex dumps.
pub proof fn law_hex_injective(a: Seq<u8>, b: Seq<u8>)
    requires
        hex_text(a) == hex_text(b),
    ensures
        a == b,
{
    if a.len() > 0 {
        law_hex_layout(a, 0);
    }
    if b.len() > 0 {
        law_hex_layout(b, 0);
    }
    assert(a.len() == b.len());
    assert forall|i: int| 0 <= i < a.len() implies a[i] == b[i] by {
        law_hex_layout(a, i);
        law_hex_layout(b, i);
        lemma_digit_injective(a[i] as int / 16, b[i] as int / 16);
        lemma_digit_injective(a[i] as int % 16, b[i] as int % 16);
    }
    assert(a =~= b);
}

proof fn lemma_digit_injective(d: int, e: int)
    requires
        0 <= d < 16,
        0 <= e < 16,
        hex_digit(d) == hex_digit(e),
    ensures
        d == e,
{
}

/// A byte as a printable character; a dot for anything else.
pub open spec fn printable(b: u8) -> char {
    if 0x20 <= b < 0x7f { b as char } else { '.' }
}

/// The text without dots at its end.
pub open spec fn without_dots(s: Seq<char>) -> Seq<char>
    decreases s.len(),
{
    if s.len() > 0 && s.last() == '.' {
        without_dots(s.drop_last())
    } else {
        s
    }
}

/// The bytes as printable characters, dots for the rest.
pub fn ascii(data: &[u8]) -> (text: String)
    ensures
        text@ == data@.map_values(|b: u8| printable(b)),
{
    let mut text: String = String::new();
    let mut i: usize = 0;
    let ghost want = data@.map_values(|b: u8| printable(b));
    while i < data.len()
        invariant
            i <= data@.len(),
            want == data@.map_values(|b: u8| printable(b)),
            text@ == want.take(i as int),
        decreases data@.len() - i,
    {
        let b: u8 = data[i];
        if 0x20 <= b && b < 0x7f {
            text.push(b as char);
        } else {
            text.push('.');
        }
        i = i + 1;
        assert(text@ =~= want.take(i as int));
    }
    assert(text@ =~= want);
    text
}

/// The bytes as printable characters, without the dots at the end.
pub fn ascii_trimmed(data: &[u8]) -> (text: String)
    ensures
        text@ == without_dots(data@.map_values(|b: u8| printable(b))),
{
    let ghost all = data@.map_values(|b: u8| printable(b));
    let mut end: usize = data.len();
    assert(all.take(end as int) =~= all);
    while end > 0 && !(0x20 <= data[end - 1] && data[end - 1] < 0x7f && data[end - 1] != 0x2e)
        invariant
            end <= data@.len(),
            all == data@.map_values(|b: u8| printable(b)),
            without_dots(all.take(end as int)) == without_dots(all),
        decreases end,
    {
        assert(all.take(end as int).drop_last() =~= all.take(end - 1));
        assert(all.take(end as int).last() == printable(data@[end - 1]));
        assert(0x2eu8 as char == '.');
        end = end - 1;
    }
    let part: Vec<u8> = crate::wire::copy_range(data, 0, end);
    proof {
        assert(part@.map_values(|b: u8| printable(b)) =~= all.take(end as int));
        if end > 0 {
            assert(all.take(end as int).last() == printable(data@[end - 1]));
            assert(data@[end - 1] as char != '.');
        }
    }
    ascii(part.as_slice())
}

/// The characters before the first zero byte.
pub open spec fn zero_terminated(data: Seq<u8>) -> Seq<char>
    decreases data.len(),
{
    if data.len() == 0 || data[0] == 0 {
        Seq::empty()
    } else {
        seq![data[0] as char] + zero_terminated(data.drop_first())
    }
}

/// The text of a fixed-size field that a zero byte may end early; each byte is
/// one character.
pub fn field_text(data: &[u8]) -> (text: String)
    ensures
        text@ == zero_terminated(data@),
{
    let mut text: String = String::new();
    let mut i: usize = 0;
    assert(data@.skip(0) =~= data@);
    while i < data.len() && data[i] != 0
        invariant
            i <= data@.len(),
            text@ + zero_terminated(data@.skip(i as int)) == zero_terminated(data@),
        decreases data@.len() - i,
    {
        let ghost before = text@;
        text.push(data[i] as char);
        proof {
            let tail = data@.skip(i as int);
            assert(tail.drop_first() =~= data@.skip(i + 1));
            assert(text@ + zero_terminated(data@.skip(i + 1)) =~= before + zero_terminated(tail));
        }
        i = i + 1;
    }
    assert(text@ + zero_terminated(data@.skip(i as int)) =~= text@);
    text
}

/// The character is a decimal digit.
pub open spec fn is_digit(c: char) -> bool {
    '0' <= c <= '9'
}

/// Value of a decimal digit.
pub open spec fn digit_value(c: char) -> nat {
    (c as int - '0' as int) as nat
}

/// Value of a string of decimal digits.
pub open spec fn digits_value(s: Seq<char>) -> nat
    decreases s.len(),
{
    if s.len() == 0 {
        0
    } else {
        10 * digits_value(s.drop_last()) + digit_value(s.last())
    }
}

/// The text after an optional plus sign.
pub open spec fn without_plus(s: Seq<char>) -> Seq<char> {
    if s.len() > 0 && s[0] == '+' { s.skip(1) } else { s }
}

/// The number that `s` denotes: an optional plus sign and one or more decimal
/// digits, with a value of at most `max`.
pub open spec fn number(s: Seq<char>, max: nat) -> Option<nat> {
    let digits = without_plus(s);
    if digits.len() > 0 && (forall|i: int| 0 <= i < digits.len() ==> is_digit(#[trigger] digits[i]))
        && digits_value(digits) <= max {
        Some(digits_value(digits))
    } else {
        None
    }
}

/// Counterpart of an optional number.
pub open spec fn number_view(n: Option<u64>) -> Option<nat> {
    match n {
        Some(v) => Some(v as nat),
        None => None,
    }
}

proof fn lemma_prefix_value(s: Seq<char>, k: int)
    requires
        0 <= k <= s.len(),
    ensures
        digits_value(s.take(k)) <= digits_value(s),
    decreases s.len(),
{
    if k == s.len() {
        assert(s.take(k) =~= s);
    } else {
        lemma_prefix_value(s.drop_last(), k);
        assert(s.drop_last().take(k) =~= s.take(k));
    }
}

/// Reads a number of at most `max`.
pub fn parse_number(s: &str, max: u64) -> (r: Option<u64>)
    ensures
        number_view(r) == number(s@, max as nat),
{
    let len: usize = s.unicode_len();
    let start: usize = if len > 0 && s.get_char(0) == '+' { 1 } else { 0 };
    let ghost digits = without_plus(s@);
    assert(digits =~= s@.skip(start as int));
    if start == len {
        return None;
    }
    let mut value: u64 = 0;
    let mut i: usize = start;
    assert(digits.take(0) =~= Seq::<char>::empty());
    while i < len
        invariant
            start <= i <= len,
            len == s@.len(),
            digits == without_plus(s@),
            digits == s@.skip(start as int),
            forall|j: int| 0 <= j < i - start ==> is_digit(#[trigger] digits[j]),
            value == digits_value(digits.take(i - start)),
            value <= max,
        decreases len - i,
    {
        let c: char = s.get_char(i);
        let ghost k = i - start;
        assert(c == digits[k]);
        if c < '0' || c > '9' {
            assert(!is_digit(digits[k]));
            return None;
        }
        let d: u64 = (c as u64) - ('0' as u64);
        proof {
            assert(digits.take(k + 1).drop_last() =~= digits.take(k));
            assert(digits.take(k + 1).last() == c);
            assert(digits_value(digits.take(k + 1)) == 10 * value + d);
            lemma_prefix_value(digits, k + 1);
        }
        if value > max / 10 || (value == max / 10 && d > max % 10) {
            return None;
        }
        value = 10 * value + d;
        i = i + 1;
    }
    assert(digits.take(i - start) =~= digits);
    Some(value)
}

/// The parts of `s` between commas; there is always at least one.
pub open spec fn comma_parts(s: Seq<char>) -> Seq<Seq<char>>
    decreases s.len(),
{
    if s.len() == 0 {
        seq![Seq::empty()]
    } else {
        let front = comma_parts(s.drop_last());
        if s.last() == ',' {
            front.push(Seq::empty())
        } else {
            front.drop_last().push(front.last().push(s.last()))
        }
    }
}

/// Splits at commas.
pub fn split_commas(s: &str) -> (parts: Vec<String>)
    ensures
        parts@.map_values(|p: String| p@) == comma_parts(s@),
{
    let len: usize = s.unicode_len();
    let mut parts: Vec<String> = Vec::new();
    let mut start: usize = 0;
    let mut i: usize = 0;
    proof {
        assert(s@.take(0) =~= Seq::<char>::empty());
        assert(s@.subrange(0, 0) =~= Seq::<char>::empty());
        assert(parts@.map_values(|p: String| p@).push(s@.subrange(0, 0)) =~= comma_parts(
            s@.take(0),
        ));
    }
    while i < len
        invariant
            start <= i <= len,
            len == s@.len(),
            parts@.map_values(|p: String| p@).push(s@.subrange(start as int, i as int))
                == comma_parts(s@.take(i as int)),
        decreases len - i,
    {
        let ghost before = parts@.map_values(|p: String| p@);
        let ghost open = s@.subrange(start as int, i as int);
        proof {
            assert(s@.take(i + 1).drop_last() =~= s@.take(i as int));
            assert(s@.take(i + 1).last() == s@[i as int]);
        }
        if s.get_char(i) == ',' {
            parts.push(s.substring_char(start, i).to_owned());
            start = i + 1;
            proof {
                assert(parts@.map_values(|p: String| p@) =~= before.push(open));
                assert(s@.subrange(start as int, i + 1) =~= Seq::<char>::empty());
            }
        } else {
            proof {
                let front = comma_parts(s@.take(i as int));
                assert(front.drop_last() =~= before);
                assert(front.last() == open);
                assert(s@.subrange(start as int, i + 1) =~= open.push(s@[i as int]));
            }
        }
        i = i + 1;
    }
    let ghost before = parts@.map_values(|p: String| p@);
    parts.push(s.substring_char(start, len).to_owned());
    proof {
        assert(s@.take(len as int) =~= s@);
        assert(parts@.map_values(|p: String| p@) =~= before.push(
            s@.subrange(start as int, len as int),
        ));
    }
    parts
}

/// The parts joined by commas.
pub open spec fn with_commas(parts: Seq<Seq<char>>) -> Seq<char>
    decreases parts.len(),
{
    if parts.len() == 0 {
        Seq::empty()
    } else if parts.len() == 1 {
        parts[0]
    } else {
        with_commas(parts.drop_last()).push(',') + parts.last()
    }
}

/// Splitting at commas loses nothing: the parts joined by commas are the text,
/// and no part holds a comma.
pub proof fn law_split_round_trip(s: Seq<char>)
    ensures
        comma_parts(s).len() > 0,
        with_commas(comma_parts(s)) == s,
        forall|i: int|
            0 <= i < comma_parts(s).len() ==> !(#[trigger] comma_parts(s)[i]).contains(','),
    decreases s.len(),
{
    if s.len() > 0 {
        let front = comma_parts(s.drop_last());
        law_split_round_trip(s.drop_last());
        let parts = comma_parts(s);
        if s.last() == ',' {
            assert(parts.drop_last() =~= front);
            assert(with_commas(parts) =~= s);
        } else {
            let last = front.last().push(s.last());
            assert(parts.drop_last() =~= front.drop_last());
            assert(parts.last() == last);
            if front.len() == 1 {
                assert(with_commas(parts) == last);
            } else {
                let lead = with_commas(front.drop_last()).push(',');
                assert(with_commas(parts) == lead + last);
                assert(lead + last =~= (lead + front.last()).push(s.last()));
            }
            assert(with_commas(parts) =~= s);
            assert(!front.last().contains(',')) by {
                assert(front.last() == front[front.len() - 1]);
            }
            assert(!last.contains(','));
        }
    }
}

proof fn lemma_part_behind(s: Seq<char>, part: Seq<char>)
    requires
        !part.contains(','),
    ensures
        comma_parts(s.push(',') + part) == comma_parts(s).push(part),
    decreases part.len(),
{
    let whole = s.push(',') + part;
    if part.len() == 0 {
        assert(whole =~= s.push(','));
        assert(whole.drop_last() =~= s);
        assert(part =~= Seq::<char>::empty());
    } else {
        let front = part.drop_last();
        assert forall|i: int| 0 <= i < front.len() implies front[i] != ',' by {
            assert(part.contains(part[i]));
            assert(front[i] == part[i]);
        }
        lemma_part_behind(s, front);
        assert(part.contains(part.last()));
        assert(whole.drop_last() =~= s.push(',') + front);
        assert(comma_parts(s).push(front).drop_last() =~= comma_parts(s));
        assert(front.push(part.last()) =~= part);
    }
}

proof fn lemma_single_part(part: Seq<char>)
    requires
        !part.contains(','),
    ensures
        comma_parts(part) == seq![part],
    decreases part.len(),
{
    if part.len() == 0 {
        assert(part =~= Seq::<char>::empty());
    } else {
        let front = part.drop_last();
        assert forall|i: int| 0 <= i < front.len() implies front[i] != ',' by {
            assert(part.contains(part[i]));
            assert(front[i] == part[i]);
        }
        lemma_single_part(front);
        assert(part.contains(part.last()));
        assert(front.push(part.last()) =~= part);
        assert(seq![front].drop_last().push(part) =~= seq![part]);
    }
}

/// Joining by commas loses nothing: parts that hold no comma come back when the
/// text is split.
pub proof fn law_join_round_trip(parts: Seq<Seq<char>>)
    requires
        parts.len() > 0,
        forall|i: int| 0 <= i < parts.len() ==> !(#[trigger] parts[i]).contains(','),
    ensures
        comma_parts(with_commas(parts)) == parts,
    decreases parts.len(),
{
    if parts.len() == 1 {
        lemma_single_part(parts[0]);
        assert(seq![parts[0]] =~= parts);
    } else {
        let rest = parts.drop_last();
        assert forall|i: int| 0 <= i < rest.len() implies !(#[trigger] rest[i]).contains(',') by {
            assert(rest[i] == parts[i]);
        }
        law_join_round_trip(rest);
        assert(parts.last() == parts[parts.len() - 1]);
        lemma_part_behind(with_commas(rest), parts.last());
        assert(rest.push(parts.last()) =~= parts);
    }
}

/// What follows `prefix` in `s`.
pub open spec fn behind(s: Seq<char>, prefix: Seq<char>) -> Option<Seq<char>> {
    if prefix.len() <= s.len() && s.take(prefix.len() as int) == prefix {
        Some(s.skip(prefix.len() as int))
    } else {
        None
    }
}

/// Counterpart of an optional text.
pub open spec fn text_view(t: Option<&str>) -> Option<Seq<char>> {
    match t {
        Some(t) => Some(t@),
        None => None,
    }
}

/// Takes a prefix off.
pub fn strip<'a>(s: &'a str, prefix: &str) -> (r: Option<&'a str>)
    ensures
        text_view(r) == behind(s@, prefix@),
{
    let len: usize = s.unicode_len();
    let n: usize = prefix.unicode_len();
    if n > len {
        return None;
    }
    let mut i: usize = 0;
    while i < n
        invariant
            i <= n <= len,
            n == prefix@.len(),
            len == s@.len(),
            forall|j: int| 0 <= j < i ==> #[trigger] s@[j] == prefix@[j],
        decreases n - i,
    {
        if s.get_char(i) != prefix.get_char(i) {
            assert(s@.take(n as int)[i as int] != prefix@[i as int]);
            return None;
        }
        i = i + 1;
    }
    assert(s@.take(n as int) =~= prefix@);
    let rest: &'a str = s.substring_char(n, len);
    assert(rest@ =~= s@.skip(n as int));
    Some(rest)
}

/// The two texts are the same.
pub fn same_text(a: &str, b: &str) -> (r: bool)
    ensures
        r == (a@ == b@),
{
    match strip(a, b) {
        None => {
            proof {
                assert(a@ == b@ ==> a@.take(b@.len() as int) =~= b@);
            }
            false
        },
        Some(rest) => {
            proof {
                if rest@.len() == 0 {
                    assert(a@.take(b@.len() as int) =~= a@);
                }
            }
            rest.unicode_len() == 0
        },
    }
}

/// Rows of `width` cells: cells apart by commas, every row ended by a line
/// break. The last row holds what is left.
pub open spec fn table(cells: Seq<Seq<char>>, width: nat) -> Seq<char>
    decreases cells.len(),
{
    if cells.len() == 0 || width == 0 {
        Seq::empty()
    } else if cells.len() <= width {
        with_commas(cells).push('\n')
    } else {
        with_commas(cells.take(width as int)).push('\n') + table(cells.skip(width as int), width)
    }
}

/// Puts one row of a table behind `text`.
fn push_row(text: &mut String, cells: &Vec<String>, from: usize, to: usize)
    requires
        from < to <= cells@.len(),
    ensures
        final(text)@ == old(text)@ + with_commas(
            cells@.map_values(|c: String| c@).subrange(from as int, to as int),
        ).push('\n'),
{
    let ghost all = cells@.map_values(|c: String| c@);
    let mut i: usize = from;
    let ghost before = text@;
    assert(before + with_commas(all.subrange(from as int, from as int)) =~= before);
    while i < to
        invariant
            from <= i <= to <= cells@.len(),
            from < to,
            all == cells@.map_values(|c: String| c@),
            text@ == before + with_commas(all.subrange(from as int, i as int)),
        decreases to - i,
    {
        if i > from {
            text.push(',');
        }
        text.append(cells[i].as_str());
        proof {
            let next = all.subrange(from as int, i + 1);
            assert(next.drop_last() =~= all.subrange(from as int, i as int));
            assert(next.last() == cells@[i as int]@);
            assert(text@ =~= before + with_commas(next));
        }
        i = i + 1;
    }
    text.push('\n');
    assert(text@ =~= before + with_commas(all.subrange(from as int, to as int)).push('\n'));
}

/// Lays out `cells` as comma-separated rows of `width` cells each.
pub fn matrix_csv(cells: &Vec<String>, width: usize) -> (text: String)
    requires
        width > 0,
    ensures
        text@ == table(cells@.map_values(|c: String| c@), width as nat),
{
    let ghost all = cells@.map_values(|c: String| c@);
    let len: usize = cells.len();
    let mut text: String = String::new();
    let mut at: usize = 0;
    assert(all.skip(0) =~= all);
    assert(text@ + table(all, width as nat) =~= table(all, width as nat));
    while at < len
        invariant
            at <= len,
            len == cells@.len(),
            width > 0,
            all == cells@.map_values(|c: String| c@),
            text@ + table(all.skip(at as int), width as nat) == table(all, width as nat),
        decreases len - at,
    {
        let to: usize = if len - at <= width { len } else { at + width };
        let ghost before = text@;
        let ghost rest = all.skip(at as int);
        push_row(&mut text, cells, at, to);
        proof {
            let row = all.subrange(at as int, to as int);
            if rest.len() <= width {
                assert(row =~= rest);
                assert(all.skip(to as int) =~= Seq::<Seq<char>>::empty());
                assert(text@ + table(all.skip(to as int), width as nat) =~= before + table(
                    rest,
                    width as nat,
                ));
            } else {
                assert(row =~= rest.take(width as int));
                assert(all.skip(to as int) =~= rest.skip(width as int));
                assert(text@ + table(all.skip(to as int), width as nat) =~= before + table(
                    rest,
                    width as nat,
                ));
            }
        }
        at = to;
    }
    assert(all.skip(at as int) =~= Seq::<Seq<char>>::empty());
    assert(text@ + table(all.skip(at as int), width as nat) =~= text@);
    text
}

/// The decimal digit of `d`.
pub open spec fn decimal_digit(d: int) -> char {
    if d == 0 { '0' } else if d == 1 { '1' } else if d == 2 { '2' } else if d == 3 { '3' }
    else if d == 4 { '4' } else if d == 5 { '5' } else if d == 6 { '6' } else if d == 7 { '7' }
    else if d == 8 { '8' } else { '9' }
}

/// The decimal digits of `n`, at least `width` of them.
pub open spec fn padded(n: nat, width: nat) -> Seq<char>
    decreases n, width,
{
    if n < 10 && width <= 1 {
        seq![decimal_digit(n as int)]
    } else {
        padded(n / 10, if width == 0 { 0 } else { (width - 1) as nat }).push(
            decimal_digit((n % 10) as int),
        )
    }
}

fn digit_char(d: usize) -> (c: char)
    requires
        d < 10,
    ensures
        c == decimal_digit(d as int),
{
    match d {
        0 => '0',
        1 => '1',
        2 => '2',
        3 => '3',
        4 => '4',
        5 => '5',
        6 => '6',
        7 => '7',
        8 => '8',
        _ => '9',
    }
}

/// Puts the decimal digits of `n` behind `text`, at least `width` of them.
fn push_padded(text: &mut String, n: usize, width: usize)
    ensures
        final(text)@ == old(text)@ + padded(n as nat, width as nat),
    decreases n, width,
{
    if n >= 10 || width > 1 {
        push_padded(text, n / 10, if width == 0 { 0 } else { width - 1 });
    }
    text.push(digit_char(n % 10));
    assert(text@ =~= old(text)@ + padded(n as nat, width as nat));
}

/// A file name with a number in it: `front`, the decimal digits of `n`, at
/// least `width` of them, and `back`.
pub fn numbered_name(front: &str, n: usize, width: usize, back: &str) -> (name: String)
    ensures
        name@ == front@ + padded(n as nat, width as nat) + back@,
{
    let mut name: String = front.to_owned();
    push_padded(&mut name, n, width);
    name.append(back);
    name
}

/// A padded number has the asked for number of digits at least, nothing but
/// digits, and reads back as the number.
pub proof fn law_padded_round_trip(n: nat, width: nat, max: nat)
    requires
        n <= max,
    ensures
        padded(n, width).len() >= width,
        forall|i: int| 0 <= i < padded(n, width).len() ==> is_digit(#[trigger] padded(n, width)[i]),
        number(padded(n, width), max) == Some(n),
{
    lemma_padded(n, width);
}

proof fn lemma_padded(n: nat, width: nat)
    ensures
        padded(n, width).len() >= width,
        padded(n, width).len() > 0,
        forall|i: int| 0 <= i < padded(n, width).len() ==> is_digit(#[trigger] padded(n, width)[i]),
        digits_value(padded(n, width)) == n,
    decreases n, width,
{
    let s = padded(n, width);
    if n < 10 && width <= 1 {
        assert(s.drop_last() =~= Seq::<char>::empty());
        assert(digits_value(s.drop_last()) == 0);
        assert(digit_value(s.last()) == n);
    } else {
        let w: nat = if width == 0 { 0 } else { (width - 1) as nat };
        lemma_padded(n / 10, w);
        assert(s.drop_last() =~= padded(n / 10, w));
        assert(digit_value(s.last()) == n % 10);
    }
}

/// Different numbers give different names.
pub proof fn law_numbered_names_differ(
    front: Seq<char>,
    a: nat,
    b: nat,
    width: nat,
    back: Seq<char>,
)
    requires
        front + padded(a, width) + back == front + padded(b, width) + back,
    ensures
        a == b,
{
    let (p, q) = (padded(a, width), padded(b, width));
    let name = front + p + back;
    assert(name == front + q + back);
    assert(p.len() == q.len());
    assert(p =~= name.subrange(front.len() as int, (front.len() + p.len()) as int));
    assert(q =~= name.subrange(front.len() as int, (front.len() + q.len()) as int));
    lemma_padded(a, width);
    lemma_padded(b, width);
}

/// Hexadecimal digits are the characters `0` to `9` and `a` to `f`, in order.
pub proof fn law_hex_digits(d: int)
    requires
        0 <= d < 16,
    ensures
        d < 10 ==> hex_digit(d) as int == '0' as int + d,
        d >= 10 ==> hex_digit(d) as int == 'a' as int + d - 10,
{
}

/// A hex dump, character by character: byte `i` stands at `3 * i` as its high and
/// its low digit, and a space behind it unless it is the last.
pub proof fn law_hex_characters(data: Seq<u8>, i: int)
    requires
        0 <= i < data.len(),
    ensures
        ({
            let (high, low) = (data[i] as int / 16, data[i] as int % 16);
            let (h, l) = (hex_text(data)[3 * i] as int, hex_text(data)[3 * i + 1] as int);
            &&& hex_text(data).len() == 3 * data.len() - 1
            &&& h == (if high < 10 { 0x30 + high } else { 0x61 + high - 10 })
            &&& l == (if low < 10 { 0x30 + low } else { 0x61 + low - 10 })
            &&& i + 1 < data.len() ==> hex_text(data)[3 * i + 2] as int == 0x20
        }),
{
    law_hex_layout(data, i);
}

/// Nothing has an empty hex dump, and bytes from 20 to 7e are printed as the
/// characters they stand for, all others as dots.
pub proof fn law_printable_characters(b: u8)
    ensures
        hex_text(Seq::empty()) == Seq::<char>::empty(),
        0x20 <= b <= 0x7e ==> printable(b) as int == b,
        b < 0x20 || b > 0x7e ==> printable(b) as int == 0x2e,
{
}

/// Taking off the dots at the end leaves a begin of the text that does not end
/// in a dot, and takes off nothing but dots.
pub proof fn law_dots_taken_off(s: Seq<char>)
    ensures
        ({
            let n = without_dots(s).len() as int;
            &&& n <= s.len()
            &&& without_dots(s) == s.take(n)
            &&& n > 0 ==> s[n - 1] as int != 0x2e
            &&& forall|i: int| n <= i < s.len() ==> #[trigger] s[i] as int == 0x2e
        }),
    decreases s.len(),
{
    if s.len() > 0 && s.last() == '.' {
        let front = s.drop_last();
        law_dots_taken_off(front);
        let n = without_dots(s).len() as int;
        assert(front.take(n) =~= s.take(n));
        assert forall|i: int| n <= i < s.len() implies #[trigger] s[i] as int == 0x2e by {
            if i < front.len() {
                assert(front[i] == s[i]);
            }
        }
        assert(n > 0 ==> front[n - 1] == s[n - 1]);
    } else {
        assert(s.take(s.len() as int) =~= s);
    }
}

/// The text of a field ends before its first zero byte, or with the field; every
/// byte before that is one character of the same number.
pub proof fn law_field_ends_at_zero(data: Seq<u8>)
    ensures
        ({
            let text = zero_terminated(data);
            let n = text.len() as int;
            &&& n <= data.len()
            &&& n < data.len() ==> data[n] == 0
            &&& forall|i: int|
                0 <= i < n ==> #[trigger] data[i] != 0 && text[i] as int == data[i] as int
        }),
    decreases data.len(),
{
    let text = zero_terminated(data);
    let n = text.len() as int;
    if data.len() > 0 && data[0] != 0 {
        let rest = data.drop_first();
        law_field_ends_at_zero(rest);
        assert(n < data.len() ==> rest[n - 1] == data[n]);
        assert forall|i: int| 0 <= i < n implies #[trigger] data[i] != 0 && text[i] as int
            == data[i] as int by {
            if i > 0 {
                assert(rest[i - 1] == data[i]);
                assert(text[i] == zero_terminated(rest)[i - 1]);
            }
        }
    }
}

/// Digits count by tens: one more digit makes the value ten times as great and
/// adds the digit.
pub proof fn law_digits_count_by_tens(s: Seq<char>, c: char)
    ensures
        is_digit(c) <==> 0x30 <= c as int <= 0x39,
        digits_value(Seq::empty()) == 0,
        is_digit(c) ==> digits_value(s.push(c)) == 10 * digits_value(s) + (c as int - 0x30),
{
    assert(s.push(c).drop_last() =~= s);
}

/// A number is an optional plus sign and digits, at least one, of a value within
/// the limit; nothing else is one.
pub proof fn law_number_is_digits(digits: Seq<char>, s: Seq<char>, max: nat)
    requires
        s == digits || s == seq!['+'] + digits,
        digits.len() > 0 ==> digits[0] != '+',
    ensures
        number(s, max) is Some <==> digits.len() > 0 && (forall|i: int|
            0 <= i < digits.len() ==> 0x30 <= #[trigger] digits[i] as int <= 0x39)
            && digits_value(digits) <= max,
        number(s, max) matches Some(v) ==> v == digits_value(digits),
{
    assert(without_plus(s) =~= digits);
    assert forall|i: int| 0 <= i < digits.len() implies is_digit(#[trigger] digits[i]) == (0x30
        <= digits[i] as int <= 0x39) by {}
}

/// Two plus signs make no number.
pub proof fn law_one_plus_sign(s: Seq<char>, max: nat)
    requires
        s.len() >= 2,
        s[0] == '+',
        s[1] == '+',
    ensures
        number(s, max) is None,
{
    let digits = without_plus(s);
    assert(digits[0] == '+');
    assert(!is_digit(digits[0]));
}

/// Parts are joined in the order given: one part stands alone, and one more
/// comes behind a comma.
pub proof fn law_parts_joined_in_order(parts: Seq<Seq<char>>, part: Seq<char>)
    ensures
        with_commas(Seq::empty()) == Seq::<char>::empty(),
        with_commas(seq![part]) == part,
        parts.len() > 0 ==> with_commas(parts.push(part)) == with_commas(parts) + seq![','] + part,
{
    assert(parts.push(part).drop_last() =~= parts);
    if parts.len() > 0 {
        assert(with_commas(parts).push(',') + part =~= with_commas(parts) + seq![','] + part);
    }
}

/// A prefix comes off exactly where the text begins with it, and then the rest
/// is what stood behind it.
pub proof fn law_prefix_comes_off(s: Seq<char>, prefix: Seq<char>, rest: Seq<char>)
    ensures
        behind(prefix + rest, prefix) == Some(rest),
        behind(s, prefix) matches Some(r) ==> s == prefix + r,
{
    assert((prefix + rest).take(prefix.len() as int) =~= prefix);
    assert((prefix + rest).skip(prefix.len() as int) =~= rest);
    if behind(s, prefix) is Some {
        assert(s =~= s.take(prefix.len() as int) + s.skip(prefix.len() as int));
    }
}

/// The parts of `s` between line breaks; there is always at least one.
pub open spec fn line_parts(s: Seq<char>) -> Seq<Seq<char>>
    decreases s.len(),
{
    if s.len() == 0 {
        seq![Seq::empty()]
    } else {
        let front = line_parts(s.drop_last());
        if s.last() == '\n' {
            front.push(Seq::empty())
        } else {
            front.drop_last().push(front.last().push(s.last()))
        }
    }
}

proof fn lemma_one_line(line: Seq<char>)
    requires
        forall|i: int| 0 <= i < line.len() ==> line[i] != '\n',
    ensures
        line_parts(line) == seq![line],
    decreases line.len(),
{
    if line.len() == 0 {
        assert(line =~= Seq::<char>::empty());
    } else {
        let front = line.drop_last();
        lemma_one_line(front);
        assert(line.last() == line[line.len() - 1]);
        assert(front.push(line.last()) =~= line);
        assert(seq![front].drop_last().push(line) =~= seq![line]);
    }
}

proof fn lemma_line_before(line: Seq<char>, rest: Seq<char>)
    requires
        forall|i: int| 0 <= i < line.len() ==> line[i] != '\n',
    ensures
        line_parts(rest).len() > 0,
        line_parts(line.push('\n') + rest) == seq![line] + line_parts(rest),
    decreases rest.len(),
{
    let whole = line.push('\n') + rest;
    if rest.len() == 0 {
        lemma_one_line(line);
        assert(whole =~= line.push('\n'));
        assert(whole.drop_last() =~= line);
        assert(rest =~= Seq::<char>::empty());
        assert(seq![line].push(Seq::empty()) =~= seq![line] + line_parts(rest));
    } else {
        let front = rest.drop_last();
        lemma_line_before(line, front);
        assert(whole.drop_last() =~= line.push('\n') + front);
        let before = seq![line] + line_parts(front);
        assert(before.last() == line_parts(front).last());
        if rest.last() == '\n' {
            assert(before.push(Seq::empty()) =~= seq![line] + line_parts(rest));
        } else {
            let last = line_parts(front).last().push(rest.last());
            assert(before.drop_last().push(last) =~= seq![line] + line_parts(rest));
        }
    }
}

proof fn lemma_row_is_one_line(cells: Seq<Seq<char>>)
    requires
        forall|i: int, j: int|
            0 <= i < cells.len() && 0 <= j < cells[i].len() ==> #[trigger] cells[i][j] != '\n',
    ensures
        forall|j: int|
            0 <= j < with_commas(cells).len() ==> #[trigger] with_commas(cells)[j] != '\n',
    decreases cells.len(),
{
    if cells.len() > 1 {
        let front = cells.drop_last();
        assert forall|i: int, j: int|
            0 <= i < front.len() && 0 <= j < front[i].len() implies #[trigger] front[i][j]
            != '\n' by {
            assert(front[i][j] == cells[i][j]);
        }
        lemma_row_is_one_line(front);
        let lead = with_commas(front).push(',');
        assert forall|j: int| 0 <= j < with_commas(cells).len() implies #[trigger] with_commas(
            cells,
        )[j] != '\n' by {
            if j >= lead.len() {
                let k = cells.len() - 1;
                assert(with_commas(cells)[j] == cells[k][j - lead.len()]);
            }
        }
    }
}

/// A table holds every cell, in order: where no cell holds a comma or a line
/// break, the text has `n` lines, each ended by a line break, and what stands
/// between the commas of line `k` are the `width` cells from `k * width` on, or
/// as many as are left. `n` is the number of rows that the cells need.
pub proof fn law_table_rows(cells: Seq<Seq<char>>, width: nat, n: int, k: int)
    requires
        width > 0,
        0 <= n,
        (n - 1) * width < cells.len() <= n * width,
        forall|i: int, j: int|
            0 <= i < cells.len() && 0 <= j < cells[i].len() ==> #[trigger] cells[i][j] != ','
                && cells[i][j] != '\n',
    ensures
        line_parts(table(cells, width)).len() == n + 1,
        line_parts(table(cells, width))[n] == Seq::<char>::empty(),
        0 <= k < n ==> 0 <= k * width < cells.len() && comma_parts(
            line_parts(table(cells, width))[k],
        ) == cells.subrange(
            k * width,
            if (k + 1) * width < cells.len() {
                (k + 1) * width
            } else {
                cells.len() as int
            },
        ),
    decreases cells.len(),
{
    let text = table(cells, width);
    let w = width as int;
    assert((n - 1) * w == n * w - w && (k + 1) * w == k * w + w && (k - 1) * w == k * w - w && (n
        - 2) * w == n * w - 2 * w) by (nonlinear_arith);
    if cells.len() == 0 {
        assert(n == 0) by (nonlinear_arith)
            requires
                0 <= n,
                w > 0,
                (n - 1) * w < 0,
        ;
        assert(text =~= Seq::<char>::empty());
        assert(line_parts(text) =~= seq![Seq::<char>::empty()]);
    } else {
        assert(n >= 1) by (nonlinear_arith)
            requires
                w > 0,
                0 < n * w,
        ;
        let m: int = if cells.len() <= width { cells.len() as int } else { w };
        let row = cells.take(m);
        let rest = cells.skip(m);
        assert forall|i: int, j: int|
            0 <= i < row.len() && 0 <= j < row[i].len() implies #[trigger] row[i][j] != ','
            && row[i][j] != '\n' by {
            assert(row[i][j] == cells[i][j]);
        }
        assert forall|i: int, j: int|
            0 <= i < rest.len() && 0 <= j < rest[i].len() implies #[trigger] rest[i][j] != ','
            && rest[i][j] != '\n' by {
            assert(rest[i][j] == cells[m + i][j]);
        }
        assert forall|i: int| 0 <= i < row.len() implies !(#[trigger] row[i]).contains(',') by {
            if row[i].contains(',') {
                let j = row[i].index_of(',');
                assert(row[i][j] == ',');
            }
        }
        lemma_row_is_one_line(row);
        law_join_round_trip(row);
        let line = with_commas(row);
        if cells.len() <= width {
            assert(n == 1) by (nonlinear_arith)
                requires
                    n >= 1,
                    w > 0,
                    (n - 1) * w < w,
            ;
            assert(row =~= cells);
            assert(rest =~= Seq::<Seq<char>>::empty());
            assert(table(rest, width) =~= Seq::<char>::empty());
        }
        assert(text =~= line.push('\n') + table(rest, width));
        lemma_line_before(line, table(rest, width));
        law_table_rows(rest, width, n - 1, k - 1);
        assert(line_parts(text) == seq![line] + line_parts(table(rest, width)));
        if k == 0 {
            assert(0 * w == 0) by (nonlinear_arith);
            assert(line_parts(text)[0] == line);
            assert(row =~= cells.subrange(0, m));
        } else if 0 < k < n {
            assert(line_parts(text)[k] == line_parts(table(rest, width))[k - 1]);
            assert(cells.len() > width) by {
                if cells.len() <= width {
                    assert(n == 1);
                }
            }
            assert(m == w);
            assert((k - 1 + 1) * w == k * w) by (nonlinear_arith);
            assert((k - 1 + 1) * width == k * w);
            let end = if (k + 1) * w < cells.len() { (k + 1) * w } else { cells.len() as int };
            assert(k * w < cells.len());
            assert(rest.subrange((k - 1) * w, end - w) =~= cells.subrange(k * w, end));
        }
    }
}

/// The lines of a text: one without a line break is one line, and a line and its
/// line break come before the lines of the rest.
pub proof fn law_lines_make_text(s: Seq<char>, line: Seq<char>, rest: Seq<char>)
    requires
        forall|i: int| 0 <= i < line.len() ==> line[i] != '\n',
        s == line.push('\n') + rest,
    ensures
        line_parts(line) == seq![line],
        line_parts(s) == seq![line] + line_parts(rest),
{
    lemma_one_line(line);
    lemma_line_before(line, rest);
}

/// A padded number is padded no further than asked for: where it is longer than
/// that, and longer than one digit, it does not begin with a zero.
pub proof fn law_padded_no_further(n: nat, width: nat)
    ensures
        padded(n, width).len() > width && padded(n, width).len() > 1 ==> padded(n, width)[0] != '0',
        width > 0 && n < 10 ==> padded(n, width).len() == width,
    decreases n, width,
{
    if n >= 10 || width > 1 {
        let w: nat = if width == 0 { 0 } else { (width - 1) as nat };
        law_padded_no_further(n / 10, w);
        let front = padded(n / 10, w);
        lemma_padded(n / 10, w);
        assert(padded(n, width)[0] == front[0]);
        if front.len() == 1 && front.len() > w {
            assert(w == 0);
            assert(n / 10 < 10) by {
                if n / 10 >= 10 {
                    lemma_padded(n / 10 / 10, 0);
                }
            }
        }
    }
}

/// Texts and numbers that may be missing keep what they hold.
pub proof fn law_optional_counterparts(t: &str, n: u64)
    ensures
        text_view(Some(t)) == Some(t@),
        text_view(None) is None,
        number_view(Some(n)) == Some(n as nat),
        number_view(None) is None,
{
}

} // verus!
