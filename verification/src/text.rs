//! Text as sequences of characters: searching, splitting and decimal numbers.

use vstd::prelude::*;

verus! {

/// What each of a sequence of strings holds.
pub open spec fn texts(strings: Seq<String>) -> Seq<Seq<char>> {
    strings.map_values(|s: String| s@)
}

/// What a string that may be missing holds.
pub open spec fn option_view(string: Option<String>) -> Option<Seq<char>> {
    match string {
        Some(s) => Some(s@),
        None => None,
    }
}

/// The first position at or after `from` that holds `c`.
pub open spec fn find_char(s: Seq<char>, c: char, from: int) -> Option<int>
    decreases s.len() - from,
{
    if from >= s.len() {
        None
    } else if s[from] == c {
        Some(from)
    } else {
        find_char(s, c, from + 1)
    }
}

/// The pieces of `s` from position `start` on, cut at every `sep`.
pub open spec fn split_from(s: Seq<char>, sep: char, start: int) -> Seq<Seq<char>>
    decreases s.len() - start,
    when 0 <= start <= s.len()
    via split_from_decreases
{
    match find_char(s, sep, start) {
        Some(i) => seq![s.subrange(start, i)] + split_from(s, sep, i + 1),
        None => seq![s.subrange(start, s.len() as int)],
    }
}

#[via_fn]
proof fn split_from_decreases(s: Seq<char>, sep: char, start: int) {
    lemma_find_char(s, sep, start);
}

/// The pieces of `s`, cut at every `sep`: one more piece than `s` has separators.
pub open spec fn split_spec(s: Seq<char>, sep: char) -> Seq<Seq<char>> {
    split_from(s, sep, 0)
}

/// What `find_char` finds holds the character, and no earlier position does.
pub proof fn lemma_find_char(s: Seq<char>, c: char, from: int)
    requires
        0 <= from,
    ensures
        find_char(s, c, from) matches Some(i) ==> from <= i < s.len() && s[i] == c && forall|j: int|
            from <= j < i ==> s[j] != c,
        find_char(s, c, from) is None ==> forall|j: int| from <= j < s.len() ==> s[j] != c,
    decreases s.len() - from,
{
    if from < s.len() && s[from] != c {
        lemma_find_char(s, c, from + 1);
    }
}

/// The first occurrence of a character is what `find_char` finds.
proof fn lemma_found_char(s: Seq<char>, c: char, from: int, i: int)
    requires
        0 <= from <= i <= s.len(),
        forall|j: int| from <= j < i ==> s[j] != c,
        i < s.len() ==> s[i] == c,
    ensures
        find_char(s, c, from) == (if i < s.len() {
            Some(i)
        } else {
            None
        }),
    decreases i - from,
{
    if from < i {
        lemma_found_char(s, c, from + 1, i);
    }
}

/// No piece of a text holds the separator.
pub proof fn lemma_pieces_hold_no_separator(s: Seq<char>, sep: char, start: int)
    requires
        0 <= start <= s.len(),
    ensures
        forall|k: int|
            0 <= k < split_from(s, sep, start).len() ==> !(#[trigger] split_from(
                s,
                sep,
                start,
            )[k]).contains(sep),
    decreases s.len() - start,
{
    lemma_find_char(s, sep, start);
    if let Some(i) = find_char(s, sep, start) {
        lemma_pieces_hold_no_separator(s, sep, i + 1);
        let rest = split_from(s, sep, i + 1);
        assert forall|k: int| 0 <= k < split_from(s, sep, start).len() implies !(
        #[trigger] split_from(s, sep, start)[k]).contains(sep) by {
            if k > 0 {
                assert(split_from(s, sep, start)[k] == rest[k - 1]);
            }
        }
    }
}

/// A text without separators is its only piece.
pub proof fn lemma_split_single(s: Seq<char>, sep: char)
    requires
        !s.contains(sep),
    ensures
        split_spec(s, sep) == seq![s],
{
    lemma_find_char(s, sep, 0);
    if let Some(i) = find_char(s, sep, 0) {
        assert(s.contains(s[i]));
    }
    assert(s.subrange(0, s.len() as int) =~= s);
}

/// A separator and a text without separators add one piece to those of a text.
pub proof fn lemma_split_append(s: Seq<char>, sep: char, piece: Seq<char>, start: int)
    requires
        0 <= start <= s.len(),
        !piece.contains(sep),
    ensures
        split_from(s.push(sep) + piece, sep, start) == split_from(s, sep, start).push(piece),
    decreases s.len() - start,
{
    let whole = s.push(sep) + piece;
    lemma_find_char(s, sep, start);
    match find_char(s, sep, start) {
        Some(i) => {
            lemma_found_char(whole, sep, start, i);
            lemma_split_append(s, sep, piece, i + 1);
            assert(whole.subrange(start, i) =~= s.subrange(start, i));
            assert(seq![s.subrange(start, i)] + split_from(s, sep, i + 1).push(piece) =~= (seq![
                s.subrange(start, i),
            ] + split_from(s, sep, i + 1)).push(piece));
        },
        None => {
            let n = s.len() as int;
            lemma_found_char(whole, sep, start, n);
            assert forall|j: int| n + 1 <= j < whole.len() implies whole[j] != sep by {
                assert(whole[j] == piece[j - n - 1]);
            }
            lemma_found_char(whole, sep, n + 1, whole.len() as int);
            assert(whole.subrange(start, n) =~= s.subrange(start, n));
            assert(whole.subrange(n + 1, whole.len() as int) =~= piece);
            assert(split_from(whole, sep, n + 1) == seq![piece]);
            assert(split_from(whole, sep, start) =~= split_from(s, sep, start).push(piece));
        },
    }
}

/// What stands before a position does not matter for the pieces from there on.
proof fn lemma_split_shift(front: Seq<char>, s: Seq<char>, sep: char, start: int)
    requires
        0 <= start <= s.len(),
    ensures
        split_from(front + s, sep, front.len() + start) == split_from(s, sep, start),
    decreases s.len() - start,
{
    let whole = front + s;
    let n = front.len() as int;
    lemma_find_char(s, sep, start);
    match find_char(s, sep, start) {
        Some(i) => {
            assert forall|j: int| n + start <= j < n + i implies whole[j] != sep by {
                assert(whole[j] == s[j - n]);
            }
            lemma_found_char(whole, sep, n + start, n + i);
            lemma_split_shift(front, s, sep, i + 1);
            assert(whole.subrange(n + start, n + i) =~= s.subrange(start, i));
        },
        None => {
            assert forall|j: int| n + start <= j < whole.len() implies whole[j] != sep by {
                assert(whole[j] == s[j - n]);
            }
            lemma_found_char(whole, sep, n + start, whole.len() as int);
            assert(whole.subrange(n + start, whole.len() as int) =~= s.subrange(
                start,
                s.len() as int,
            ));
        },
    }
}

proof fn lemma_split_concat(a: Seq<char>, sep: char, b: Seq<char>, start: int)
    requires
        0 <= start <= a.len(),
    ensures
        split_from(a.push(sep) + b, sep, start) == split_from(a, sep, start) + split_spec(b, sep),
    decreases a.len() - start,
{
    let whole = a.push(sep) + b;
    let n = a.len() as int;
    lemma_find_char(a, sep, start);
    match find_char(a, sep, start) {
        Some(i) => {
            lemma_found_char(whole, sep, start, i);
            lemma_split_concat(a, sep, b, i + 1);
            assert(whole.subrange(start, i) =~= a.subrange(start, i));
            assert(split_from(whole, sep, start) =~= split_from(a, sep, start) + split_spec(b, sep));
        },
        None => {
            lemma_found_char(whole, sep, start, n);
            lemma_split_shift(a.push(sep), b, sep, 0);
            assert(whole.subrange(start, n) =~= a.subrange(start, n));
            assert(split_from(whole, sep, start) =~= split_from(a, sep, start) + split_spec(b, sep));
        },
    }
}

/// A separator cuts a text in two: the pieces of the whole are those of what stands before it and
/// those of what stands after it.
pub proof fn law_separator_cuts(a: Seq<char>, sep: char, b: Seq<char>)
    ensures
        split_spec(a.push(sep) + b, sep) == split_spec(a, sep) + split_spec(b, sep),
{
    lemma_split_concat(a, sep, b, 0);
}

/// The first piece of a text is what stands before its first separator.
pub proof fn law_first_piece(a: Seq<char>, sep: char, b: Seq<char>)
    requires
        !a.contains(sep),
    ensures
        split_spec(a.push(sep) + b, sep) == seq![a] + split_spec(b, sep),
{
    law_separator_cuts(a, sep, b);
    lemma_split_single(a, sep);
}

/// Every text is its first piece alone, or its first piece, a separator and the rest.
pub proof fn lemma_first_piece_of(s: Seq<char>, sep: char)
    ensures
        split_spec(s, sep).len() > 0,
        !split_spec(s, sep)[0].contains(sep),
        !s.contains(sep) ==> split_spec(s, sep)[0] == s,
        s.contains(sep) ==> {
            let first = split_spec(s, sep)[0];
            &&& first.len() < s.len()
            &&& s == first.push(sep) + s.skip(first.len() as int + 1)
            &&& split_spec(s, sep) == seq![first] + split_spec(s.skip(first.len() as int + 1), sep)
        },
{
    lemma_pieces_hold_no_separator(s, sep, 0);
    lemma_find_char(s, sep, 0);
    if s.contains(sep) {
        let at = s.index_of(sep);
        assert(s[at] == sep);
        let i = find_char(s, sep, 0)->0;
        let first = s.subrange(0, i);
        assert(split_spec(s, sep)[0] == first);
        let rest = s.skip(i + 1);
        assert(s =~= first.push(sep) + rest);
        assert(!first.contains(sep));
        law_first_piece(first, sep, rest);
    } else {
        lemma_split_single(s, sep);
    }
}

/// The characters of a text.
pub fn chars_of(text: &str) -> (chars: Vec<char>)
    ensures
        chars@ == text@,
{
    let mut chars: Vec<char> = Vec::new();
    for c in iter: text.chars()
        invariant
            iter.seq() == text@,
            chars@ == text@.take(iter.index()),
    {
        chars.push(c);
    }
    chars
}

/// Whether a character occurs in a text.
pub fn contains_char(text: &str, c: char) -> (yes: bool)
    ensures
        yes == text@.contains(c),
{
    let chars = chars_of(text);
    let mut i: usize = 0;
    while i < chars.len()
        invariant
            i <= chars.len(),
            chars@ == text@,
            forall|j: int| 0 <= j < i ==> text@[j] != c,
        decreases chars.len() - i,
    {
        if chars[i] == c {
            return true;
        }
        i = i + 1;
    }
    false
}

/// Cuts a text at every separator.
pub fn split(text: &str, sep: char) -> (pieces: Vec<String>)
    ensures
        texts(pieces@) == split_spec(text@, sep),
{
    let chars = chars_of(text);
    let mut pieces: Vec<String> = Vec::new();
    let mut start: usize = 0;
    let mut i: usize = 0;
    while i < chars.len()
        invariant
            chars@ == text@,
            start <= i <= chars.len(),
            find_char(text@, sep, start as int) == find_char(text@, sep, i as int),
            split_spec(text@, sep) == texts(pieces@) + split_from(
                text@,
                sep,
                start as int,
            ),
        decreases chars.len() - i,
    {
        if chars[i] == sep {
            let ghost before = texts(pieces@);
            pieces.push(text.substring_char(start, i).to_owned());
            assert(texts(pieces@) =~= before.push(
                text@.subrange(start as int, i as int),
            ));
            start = i + 1;
        }
        i = i + 1;
    }
    let ghost before = texts(pieces@);
    pieces.push(text.substring_char(start, chars.len()).to_owned());
    assert(texts(pieces@) =~= before.push(
        text@.subrange(start as int, text@.len() as int),
    ));
    pieces
}

/// The first position at or after `from` where `needle` stands in `s`.
pub open spec fn find_from(s: Seq<char>, needle: Seq<char>, from: int) -> Option<int>
    decreases s.len() + 1 - from,
{
    if from + needle.len() > s.len() {
        None
    } else if s.subrange(from, from + needle.len()) == needle {
        Some(from)
    } else {
        find_from(s, needle, from + 1)
    }
}

/// The first position where `needle` stands in `s`.
pub open spec fn find_spec(s: Seq<char>, needle: Seq<char>) -> Option<int> {
    find_from(s, needle, 0)
}

/// What `find_from` finds is an occurrence, and no earlier position is one.
pub proof fn lemma_find_from(s: Seq<char>, needle: Seq<char>, from: int)
    requires
        0 <= from,
    ensures
        find_from(s, needle, from) matches Some(i) ==> {
            &&& from <= i
            &&& i + needle.len() <= s.len()
            &&& s.subrange(i, i + needle.len()) == needle
            &&& forall|j: int| from <= j < i ==> #[trigger] s.subrange(j, j + needle.len()) != needle
        },
        find_from(s, needle, from) is None ==> forall|j: int|
            from <= j <= s.len() - needle.len() ==> #[trigger] s.subrange(j, j + needle.len())
                != needle,
    decreases s.len() + 1 - from,
{
    if from + needle.len() <= s.len() && s.subrange(from, from + needle.len()) != needle {
        lemma_find_from(s, needle, from + 1);
    }
}

/// Whether `needle` stands in `s` at position `at`.
fn stands_at(s: &Vec<char>, needle: &Vec<char>, at: usize) -> (yes: bool)
    requires
        at + needle.len() <= s.len(),
    ensures
        yes == (s@.subrange(at as int, at + needle.len()) == needle@),
{
    let mut k: usize = 0;
    while k < needle.len()
        invariant
            k <= needle.len(),
            at + needle.len() <= s.len(),
            forall|j: int| 0 <= j < k ==> s[at + j] == needle[j],
        decreases needle.len() - k,
    {
        if s[at + k] != needle[k] {
            assert(s@.subrange(at as int, at + needle.len())[k as int] != needle@[k as int]);
            return false;
        }
        k = k + 1;
    }
    assert(s@.subrange(at as int, at + needle.len()) =~= needle@);
    true
}

/// Finds the first occurrence of `needle` in `text`, as a position in characters.
pub fn find(text: &str, needle: &str) -> (position: Option<usize>)
    ensures
        match position {
            Some(i) => find_spec(text@, needle@) == Some(i as int),
            None => find_spec(text@, needle@) is None,
        },
{
    let s = chars_of(text);
    let n = chars_of(needle);
    if n.len() > s.len() {
        return None;
    }
    let last: usize = s.len() - n.len();
    let mut i: usize = 0;
    while i < last
        invariant
            s@ == text@,
            n@ == needle@,
            last == s.len() - n.len(),
            i <= last,
            find_spec(text@, needle@) == find_from(text@, needle@, i as int),
        decreases last - i,
    {
        if stands_at(&s, &n, i) {
            return Some(i);
        }
        i = i + 1;
    }
    if stands_at(&s, &n, last) {
        Some(last)
    } else {
        assert(find_from(text@, needle@, last + 1) is None);
        None
    }
}

/// The decimal digit of value `d`.
pub open spec fn digit(d: int) -> char {
    "0123456789"@[d]
}

/// A number in decimal, without leading zeros.
pub open spec fn decimal_spec(n: nat) -> Seq<char>
    decreases n,
{
    if n < 10 {
        seq![digit(n as int)]
    } else {
        decimal_spec(n / 10).push(digit((n % 10) as int))
    }
}

/// Writes a number in decimal.
pub fn decimal(n: usize) -> (written: String)
    ensures
        written@ == decimal_spec(n as nat),
    decreases n,
{
    let digits = "0123456789";
    proof {
        reveal_strlit("0123456789");
    }
    let d: usize = n % 10;
    let last = digits.substring_char(d, d + 1);
    assert(last@ =~= seq![digit(d as int)]);
    if n < 10 {
        last.to_owned()
    } else {
        let mut written = decimal(n / 10);
        written.append(last);
        assert(written@ =~= decimal_spec((n / 10) as nat).push(digit(d as int)));
        written
    }
}

/// Whether a character is a decimal digit.
pub open spec fn is_digit(c: char) -> bool {
    '0' <= c <= '9'
}

/// The number that a sequence of decimal digits stands for.
pub open spec fn number(digits: Seq<char>) -> nat
    decreases digits.len(),
{
    if digits.len() == 0 {
        0
    } else {
        number(digits.drop_last()) * 10 + (digits.last() as nat - '0' as nat) as nat
    }
}

/// Whether a text is made of one or more decimal digits.
pub open spec fn is_decimal(s: Seq<char>) -> bool {
    s.len() > 0 && forall|i: int| 0 <= i < s.len() ==> is_digit(#[trigger] s[i])
}

/// A text without the sign that it starts with, if any.
pub open spec fn unsigned(s: Seq<char>, sign: char) -> Seq<char> {
    if s.len() > 0 && s[0] == sign {
        s.skip(1)
    } else {
        s
    }
}

/// The `usize` that a text stands for: decimal digits, after at most one `+`.
pub open spec fn parse_usize_spec(s: Seq<char>) -> Option<usize> {
    let digits = unsigned(s, '+');
    if is_decimal(digits) && number(digits) <= usize::MAX {
        Some(number(digits) as usize)
    } else {
        None
    }
}

/// The `isize` that a text stands for: decimal digits, after at most one `+` or `-`.
pub open spec fn parse_isize_spec(s: Seq<char>) -> Option<isize> {
    if s.len() > 0 && s[0] == '-' {
        let digits = s.skip(1);
        if is_decimal(digits) && -number(digits) >= isize::MIN {
            Some((-number(digits)) as isize)
        } else {
            None
        }
    } else {
        let digits = unsigned(s, '+');
        if is_decimal(digits) && number(digits) <= isize::MAX {
            Some(number(digits) as isize)
        } else {
            None
        }
    }
}

/// A longer sequence of digits stands for no smaller number.
proof fn lemma_number_grows(digits: Seq<char>, n: int)
    requires
        0 <= n <= digits.len(),
    ensures
        number(digits.take(n)) <= number(digits),
    decreases digits.len() - n,
{
    if n < digits.len() {
        lemma_number_grows(digits, n + 1);
        assert(digits.take(n + 1).drop_last() =~= digits.take(n));
    } else {
        assert(digits.take(n) =~= digits);
    }
}

/// Reads the characters from `from` on as a decimal number of at most `limit`.
fn parse_digits(chars: &Vec<char>, from: usize, limit: u128) -> (value: Option<u128>)
    requires
        from <= chars.len(),
        limit <= u64::MAX,
    ensures
        ({
            let digits = chars@.skip(from as int);
            match value {
                Some(v) => is_decimal(digits) && number(digits) == v && v <= limit,
                None => !(is_decimal(digits) && number(digits) <= limit),
            }
        }),
{
    let ghost digits = chars@.skip(from as int);
    if from == chars.len() {
        return None;
    }
    let mut value: u128 = 0;
    let mut i: usize = from;
    while i < chars.len()
        invariant
            from <= i <= chars.len(),
            limit <= u64::MAX,
            digits == chars@.skip(from as int),
            forall|j: int| 0 <= j < i - from ==> is_digit(#[trigger] digits[j]),
            value == number(digits.take(i - from)),
            value <= limit,
        decreases chars.len() - i,
    {
        let c = chars[i];
        assert(c == digits[i - from]);
        if c < '0' || '9' < c {
            return None;
        }
        value = value * 10 + (c as u128 - '0' as u128);
        assert(digits.take(i - from + 1).drop_last() =~= digits.take(i - from));
        if value > limit {
            proof {
                lemma_number_grows(digits, i - from + 1);
            }
            return None;
        }
        i = i + 1;
    }
    assert(digits.take(chars.len() - from) =~= digits);
    Some(value)
}

/// Reads a text as a `usize`.
pub fn parse_usize(text: &str) -> (value: Option<usize>)
    ensures
        value == parse_usize_spec(text@),
{
    let chars = chars_of(text);
    let from: usize = if chars.len() > 0 && chars[0] == '+' { 1 } else { 0 };
    assert(chars@.skip(from as int) =~= unsigned(text@, '+'));
    match parse_digits(&chars, from, usize::MAX as u128) {
        Some(v) => Some(v as usize),
        None => None,
    }
}

/// Reads a text as an `isize`.
pub fn parse_isize(text: &str) -> (value: Option<isize>)
    ensures
        value == parse_isize_spec(text@),
{
    let chars = chars_of(text);
    if chars.len() > 0 && chars[0] == '-' {
        match parse_digits(&chars, 1, isize::MAX as u128 + 1) {
            Some(v) => Some((0 - v as i128) as isize),
            None => None,
        }
    } else {
        let from: usize = if chars.len() > 0 && chars[0] == '+' { 1 } else { 0 };
        assert(chars@.skip(from as int) =~= unsigned(text@, '+'));
        match parse_digits(&chars, from, isize::MAX as u128) {
            Some(v) => Some(v as isize),
            None => None,
        }
    }
}

/// Each further digit makes a number ten times as large and adds its own value.
pub proof fn law_digits_count_by_tens(digits: Seq<char>, c: char)
    requires
        '0' <= c <= '9',
    ensures
        number(digits.push(c)) == 10 * number(digits) + (c as int - '0' as int),
        number(seq![c]) == c as int - '0' as int,
        number(seq![]) == 0,
{
    assert(digits.push(c).drop_last() =~= digits);
    assert(seq![c].drop_last() =~= seq![]);
    assert(number(seq![c].drop_last()) == 0);
}

/// A number is written with decimal digits alone, without a zero before the others, and these
/// stand for it.
pub proof fn law_decimal_writes_the_number(n: nat)
    ensures
        decimal_spec(n).len() > 0,
        forall|i: int| 0 <= i < decimal_spec(n).len() ==> '0' <= #[trigger] decimal_spec(n)[i] <= '9',
        decimal_spec(n).len() > 1 ==> decimal_spec(n)[0] != '0',
        number(decimal_spec(n)) == n,
    decreases n,
{
    lemma_decimal_digits(n);
    assert forall|i: int| 0 <= i < decimal_spec(n).len() implies '0' <= #[trigger] decimal_spec(
        n,
    )[i] <= '9' by {
        assert(is_digit(decimal_spec(n)[i]));
    }
    if n >= 10 {
        law_decimal_writes_the_number(n / 10);
        assert(decimal_spec(n)[0] == decimal_spec(n / 10)[0]);
        if decimal_spec(n / 10).len() == 1 {
            let first = decimal_spec(n / 10);
            assert(first.drop_last() =~= seq![]);
            assert(number(first.drop_last()) == 0);
            assert(number(first) == first[0] as nat - '0' as nat);
        }
    }
}

/// Decimal digits, alone or after a sign, are read as the number that they stand for, provided
/// that it is within the limits.
pub proof fn law_digits_are_read(digits: Seq<char>)
    requires
        digits.len() > 0,
        forall|i: int| 0 <= i < digits.len() ==> '0' <= #[trigger] digits[i] <= '9',
    ensures
        number(digits) <= usize::MAX ==> {
            &&& parse_usize_spec(digits) == Some(number(digits) as usize)
            &&& parse_usize_spec(seq!['+'] + digits) == Some(number(digits) as usize)
        },
        number(digits) > usize::MAX ==> {
            &&& parse_usize_spec(digits) is None
            &&& parse_usize_spec(seq!['+'] + digits) is None
        },
        parse_usize_spec(seq!['-'] + digits) is None,
        number(digits) <= isize::MAX ==> {
            &&& parse_isize_spec(digits) == Some(number(digits) as isize)
            &&& parse_isize_spec(seq!['+'] + digits) == Some(number(digits) as isize)
        },
        number(digits) > isize::MAX ==> {
            &&& parse_isize_spec(digits) is None
            &&& parse_isize_spec(seq!['+'] + digits) is None
        },
        -number(digits) >= isize::MIN ==> parse_isize_spec(seq!['-'] + digits) == Some(
            (-number(digits)) as isize,
        ),
        -number(digits) < isize::MIN ==> parse_isize_spec(seq!['-'] + digits) is None,
{
    assert(is_digit(digits[0]));
    assert(is_decimal(digits));
    assert((seq!['+'] + digits).skip(1) =~= digits);
    assert((seq!['-'] + digits).skip(1) =~= digits);
    assert(!is_digit((seq!['-'] + digits)[0]));
}

/// A text that holds anything but digits behind its first character, or starts with what is
/// neither a digit nor a sign, or holds no digit, is no number.
pub proof fn law_other_text_is_no_number(s: Seq<char>)
    requires
        ({
            ||| s.len() == 0
            ||| s.len() == 1 && (s[0] < '0' || s[0] > '9')
            ||| s[0] != '+' && s[0] != '-' && (s[0] < '0' || s[0] > '9')
            ||| exists|i: int| 0 < i < s.len() && !('0' <= #[trigger] s[i] <= '9')
        }),
    ensures
        parse_usize_spec(s) is None,
        parse_isize_spec(s) is None,
{
    if exists|i: int| 0 < i < s.len() && !('0' <= #[trigger] s[i] <= '9') {
        let i = choose|i: int| 0 < i < s.len() && !('0' <= #[trigger] s[i] <= '9');
        assert(!is_digit(s[i]));
        assert(s.skip(1)[i - 1] == s[i]);
    } else if s.len() > 0 {
        assert(!is_digit(s[0]));
    }
}

/// A number that is written in decimal is read back.
pub proof fn law_decimal_is_read_back(n: usize)
    ensures
        parse_usize_spec(decimal_spec(n as nat)) == Some(n),
        n <= isize::MAX ==> parse_isize_spec(decimal_spec(n as nat)) == Some(n as isize),
{
    lemma_decimal_digits(n as nat);
    let written = decimal_spec(n as nat);
    assert(is_digit(written[0]));
}

proof fn lemma_decimal_digits(n: nat)
    ensures
        is_decimal(decimal_spec(n)),
        number(decimal_spec(n)) == n,
    decreases n,
{
    reveal_strlit("0123456789");
    let written = decimal_spec(n);
    if n < 10 {
        assert(written.drop_last() =~= seq![]);
        assert(number(written.drop_last()) == 0);
    } else {
        lemma_decimal_digits(n / 10);
        assert(written.drop_last() =~= decimal_spec(n / 10));
    }
}

} // verus!
