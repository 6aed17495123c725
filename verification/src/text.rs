//! Text as sequences of characters: searching, splitting and the decimal
//! numerals that messages and configuration values are made of.

use vstd::prelude::*;
use vstd::string::*;

verus! {

/// The views of the items of a sequence.
pub open spec fn views<T: View>(items: Seq<T>) -> Seq<T::V> {
    Seq::new(items.len(), |i: int| items[i]@)
}

/// The view of an optional value.
pub open spec fn option_view<T: View>(item: Option<T>) -> Option<T::V> {
    match item {
        Some(value) => Some(value@),
        None => None,
    }
}

/// The view of a result, on either side.
pub open spec fn result_view<T: View, E: View>(item: Result<T, E>) -> Result<T::V, E::V> {
    match item {
        Ok(value) => Ok(value@),
        Err(error) => Err(error@),
    }
}

/// The pieces of `text` between the occurrences of `separator`: one more than
/// there are separators, some of them possibly empty.
pub open spec fn split_on(text: Seq<char>, separator: char) -> Seq<Seq<char>>
    decreases text.len(),
{
    if text.len() == 0 {
        seq![Seq::empty()]
    } else {
        let pieces = split_on(text.drop_last(), separator);
        if text.last() == separator {
            pieces.push(Seq::empty())
        } else {
            pieces.update(pieces.len() - 1, pieces.last().push(text.last()))
        }
    }
}

/// The position of the first `wanted` in `text`, or the length of `text`.
pub open spec fn first_position(text: Seq<char>, wanted: char) -> int
    decreases text.len(),
{
    if text.len() == 0 || text[0] == wanted {
        0
    } else {
        1 + first_position(text.drop_first(), wanted)
    }
}

/// The value of `c` as a digit in base ten or sixteen.
pub open spec fn digit_value(c: char, radix: nat) -> Option<nat> {
    if '0' <= c && c <= '9' {
        Some((c as int - '0' as int) as nat)
    } else if radix == 16 && 'a' <= c && c <= 'f' {
        Some((c as int - 'a' as int + 10) as nat)
    } else if radix == 16 && 'A' <= c && c <= 'F' {
        Some((c as int - 'A' as int + 10) as nat)
    } else {
        None
    }
}

/// The value of a run of digits; the empty run has the value zero.
pub open spec fn digits_value(digits: Seq<char>, radix: nat) -> Option<nat>
    decreases digits.len(),
{
    if digits.len() == 0 {
        Some(0)
    } else {
        match (digits_value(digits.drop_last(), radix), digit_value(digits.last(), radix)) {
            (Some(high), Some(low)) => Some(high * radix + low),
            _ => None,
        }
    }
}

/// The value of a numeral: at least one digit, and nothing but digits.
pub open spec fn numeral_value(text: Seq<char>, radix: nat) -> Option<nat> {
    if text.len() == 0 {
        None
    } else {
        digits_value(text, radix)
    }
}

/// The decimal numeral of `n`, without leading zeros.
pub open spec fn decimal(n: nat) -> Seq<char>
    decreases n,
{
    let low = seq![('0' as int + n % 10) as char];
    if n < 10 {
        low
    } else {
        decimal(n / 10) + low
    }
}

/// Whether `left` and `right` agree before position `k`, and `left` ends there
/// or goes on with a smaller character than `right`.
pub open spec fn smaller_at(left: Seq<char>, right: Seq<char>, k: int) -> bool {
    &&& 0 <= k <= left.len()
    &&& k < right.len()
    &&& forall|i: int| 0 <= i < k ==> left[i] == right[i]
    &&& k == left.len() || left[k] < right[k]
}

/// Whether `left` comes before `right` in the order of texts.
pub open spec fn comes_before(left: Seq<char>, right: Seq<char>) -> bool {
    exists|k: int| smaller_at(left, right, k)
}

/// No text comes before itself.
pub proof fn law_order_is_irreflexive(text: Seq<char>)
    ensures
        !comes_before(text, text),
{
}

/// What comes before something comes before all that follows it.
pub proof fn law_order_is_transitive(first: Seq<char>, second: Seq<char>, third: Seq<char>)
    requires
        comes_before(first, second),
        comes_before(second, third),
    ensures
        comes_before(first, third),
{
    let j = choose|k: int| smaller_at(first, second, k);
    let k = choose|k: int| smaller_at(second, third, k);
    if j <= k {
        assert(smaller_at(first, third, j));
    } else {
        assert(smaller_at(first, third, k));
    }
}

proof fn lemma_digits_prefix(digits: Seq<char>, radix: nat, k: int)
    requires
        0 <= k <= digits.len(),
        digits_value(digits, radix) is Some,
    ensures
        digits_value(digits.take(k), radix) is Some,
    decreases digits.len(),
{
    if k == digits.len() {
        assert(digits.take(k) =~= digits);
    } else {
        lemma_digits_prefix(digits.drop_last(), radix, k);
        assert(digits.drop_last().take(k) =~= digits.take(k));
    }
}

/// The characters of `text`.
pub(crate) fn chars_of(text: &str) -> (chars: Vec<char>)
    ensures
        chars@ == text@,
{
    let mut chars: Vec<char> = Vec::new();
    for c in it: text.chars()
        invariant
            chars@ == it.seq().take(it.index()),
            it.seq() == text@,
    {
        chars.push(c);
    }
    chars
}

/// A copy of the text that an option holds.
pub(crate) fn copy_option(text: &Option<String>) -> (copy: Option<String>)
    ensures
        option_view(copy) == option_view(*text),
{
    match text {
        Some(text) => Some(text.clone()),
        None => None,
    }
}

/// Whether two texts are the same.
pub(crate) fn same_text(left: &str, right: &str) -> (same: bool)
    ensures
        same == (left@ == right@),
{
    let left: String = left.to_owned();
    let right: String = right.to_owned();
    left == right
}

/// Whether `text` begins with `prefix`.
pub(crate) fn starts_with(text: &str, prefix: &str) -> (found: bool)
    ensures
        found == prefix@.is_prefix_of(text@),
{
    let whole = chars_of(text);
    let start = chars_of(prefix);
    if start.len() > whole.len() {
        return false;
    }
    let mut i: usize = 0;
    while i < start.len()
        invariant
            i <= start.len() <= whole.len(),
            start@ == prefix@,
            whole@ == text@,
            forall|j: int| 0 <= j < i ==> start@[j] == whole@[j],
        decreases start.len() - i,
    {
        if start[i] != whole[i] {
            return false;
        }
        i += 1;
    }
    true
}

/// How two texts stand to each other in the order of texts.
pub(crate) enum TextOrder {
    Before,
    Same,
    After,
}

/// Compares two texts character by character.
pub(crate) fn text_order(left: &str, right: &str) -> (order: TextOrder)
    ensures
        match order {
            TextOrder::Before => comes_before(left@, right@),
            TextOrder::Same => left@ == right@,
            TextOrder::After => comes_before(right@, left@),
        },
{
    let first = chars_of(left);
    let second = chars_of(right);
    let mut i: usize = 0;
    while i < first.len() && i < second.len()
        invariant
            i <= first@.len(),
            i <= second@.len(),
            first@ == left@,
            second@ == right@,
            forall|j: int| 0 <= j < i ==> first@[j] == second@[j],
        decreases first@.len() - i,
    {
        if first[i] < second[i] {
            assert(smaller_at(left@, right@, i as int));
            return TextOrder::Before;
        }
        if second[i] < first[i] {
            assert(smaller_at(right@, left@, i as int));
            return TextOrder::After;
        }
        i += 1;
    }
    if i < second.len() {
        assert(smaller_at(left@, right@, i as int));
        TextOrder::Before
    } else if i < first.len() {
        assert(smaller_at(right@, left@, i as int));
        TextOrder::After
    } else {
        assert(left@ =~= right@);
        TextOrder::Same
    }
}

/// Finds the first `wanted` in `text`.
pub(crate) fn find_char(text: &[char], wanted: char) -> (position: usize)
    ensures
        position == first_position(text@, wanted),
        position <= text@.len(),
        position < text@.len() ==> text@[position as int] == wanted,
{
    let mut i: usize = 0;
    assert(text@.skip(0) =~= text@);
    while i < text.len() && text[i] != wanted
        invariant
            i <= text@.len(),
            first_position(text@, wanted) == i + first_position(text@.skip(i as int), wanted),
        decreases text@.len() - i,
    {
        assert(text@.skip(i as int).drop_first() =~= text@.skip(i + 1));
        i += 1;
    }
    i
}

/// Splits `text` at every `separator`.
pub(crate) fn split_chars(text: &[char], separator: char) -> (pieces: Vec<Vec<char>>)
    ensures
        views(pieces@) == split_on(text@, separator),
        pieces@.len() > 0,
{
    let mut pieces: Vec<Vec<char>> = Vec::new();
    let mut current: Vec<char> = Vec::new();
    let mut i: usize = 0;
    assert(text@.take(0) =~= Seq::empty());
    assert(views(pieces@).push(current@) =~= seq![Seq::<char>::empty()]);
    while i < text.len()
        invariant
            i <= text@.len(),
            views(pieces@).push(current@) == split_on(text@.take(i as int), separator),
        decreases text@.len() - i,
    {
        let ghost before = views(pieces@).push(current@);
        let c = text[i];
        proof {
            assert(text@.take(i + 1).drop_last() =~= text@.take(i as int));
            assert(text@.take(i + 1).last() == c);
            assert(before.last() == current@);
        }
        if c == separator {
            let ghost done = pieces@;
            let ghost last = current@;
            pieces.push(current);
            current = Vec::new();
            proof {
                assert(views(pieces@) =~= views(done).push(last));
                assert(views(pieces@).push(current@) =~= before.push(Seq::empty()));
            }
        } else {
            current.push(c);
            proof {
                assert(views(pieces@).push(current@) =~= before.update(
                    before.len() - 1,
                    before.last().push(c),
                ));
            }
        }
        i += 1;
    }
    assert(text@.take(text@.len() as int) =~= text@);
    let ghost done = pieces@;
    let ghost last = current@;
    pieces.push(current);
    assert(views(pieces@) =~= views(done).push(last));
    pieces
}

/// Reads a numeral of at most `limit` digits.
pub(crate) fn read_numeral(text: &[char], radix: u32, limit: usize) -> (value: Option<u32>)
    requires
        radix == 10 || radix == 16,
        limit <= 4,
    ensures
        match value {
            Some(number) => text@.len() <= limit && numeral_value(text@, radix as nat) == Some(
                number as nat,
            ),
            None => text@.len() > limit || numeral_value(text@, radix as nat) is None,
        },
        value matches Some(number) ==> number < 0x10000,
{
    if text.len() == 0 || text.len() > limit {
        return None;
    }
    let mut value: u32 = 0;
    let mut i: usize = 0;
    assert(text@.take(0) =~= Seq::empty());
    while i < text.len()
        invariant
            i <= text@.len() <= limit <= 4,
            text@.len() > 0,
            radix == 10 || radix == 16,
            digits_value(text@.take(i as int), radix as nat) == Some(value as nat),
            i == 0 ==> value == 0,
            i == 1 ==> value < 0x10,
            i == 2 ==> value < 0x100,
            i == 3 ==> value < 0x1000,
            i == 4 ==> value < 0x10000,
        decreases text@.len() - i,
    {
        let c = text[i];
        proof {
            assert(text@.take(i + 1).drop_last() =~= text@.take(i as int));
            assert(text@.take(i + 1).last() == c);
        }
        let digit: u32 = if '0' <= c && c <= '9' {
            c as u32 - '0' as u32
        } else if radix == 16 && 'a' <= c && c <= 'f' {
            c as u32 - 'a' as u32 + 10
        } else if radix == 16 && 'A' <= c && c <= 'F' {
            c as u32 - 'A' as u32 + 10
        } else {
            proof {
                assert(digits_value(text@.take(i + 1), radix as nat) is None);
                if digits_value(text@, radix as nat) is Some {
                    lemma_digits_prefix(text@, radix as nat, i + 1);
                }
            }
            return None;
        };
        assert(value * radix + digit < 0x10000) by (nonlinear_arith)
            requires
                value < 0x1000,
                radix == 10 || radix == 16,
                digit < 16,
        ;
        assert(i == 0 ==> value * radix == 0) by (nonlinear_arith)
            requires
                i == 0 ==> value == 0,
        ;
        assert(i == 1 ==> value * radix + digit < 0x100) by (nonlinear_arith)
            requires
                i == 1 ==> value < 0x10,
                radix == 10 || radix == 16,
                digit < 16,
        ;
        assert(i == 2 ==> value * radix + digit < 0x1000) by (nonlinear_arith)
            requires
                i == 2 ==> value < 0x100,
                radix == 10 || radix == 16,
                digit < 16,
        ;
        value = value * radix + digit;
        i += 1;
    }
    assert(text@.take(text@.len() as int) =~= text@);
    Some(value)
}

/// The text of one decimal digit.
fn digit_text(digit: u64) -> (text: &'static str)
    requires
        digit < 10,
    ensures
        text@ == seq![('0' as int + digit) as char],
{
    proof {
        reveal_strlit("0");
        reveal_strlit("1");
        reveal_strlit("2");
        reveal_strlit("3");
        reveal_strlit("4");
        reveal_strlit("5");
        reveal_strlit("6");
        reveal_strlit("7");
        reveal_strlit("8");
        reveal_strlit("9");
    }
    let text: &'static str = match digit {
        0 => "0",
        1 => "1",
        2 => "2",
        3 => "3",
        4 => "4",
        5 => "5",
        6 => "6",
        7 => "7",
        8 => "8",
        _ => "9",
    };
    assert(text@ =~= seq![('0' as int + digit) as char]);
    text
}

/// Writes `n` in decimal.
pub(crate) fn decimal_text(n: u64) -> (text: String)
    ensures
        text@ == decimal(n as nat),
    decreases n,
{
    let low = digit_text(n % 10);
    if n < 10 {
        low.to_owned()
    } else {
        decimal_text(n / 10).concat(low)
    }
}

/// The views of items are as many as the items, in the same places.
pub proof fn law_views_keep_places<T: View>(items: Seq<T>)
    ensures
        views(items).len() == items.len(),
        forall|i: int| 0 <= i < items.len() ==> #[trigger] views(items)[i] == items[i]@,
{
}

/// The view of an option or a result holds the view of what is in it.
pub proof fn law_views_keep_contents<T: View, E: View>(item: T, error: E)
    ensures
        option_view(Some(item)) == Some(item@),
        option_view(None::<T>) == None::<T::V>,
        result_view(Ok::<T, E>(item)) == Ok::<T::V, E::V>(item@),
        result_view(Err::<T, E>(error)) == Err::<T::V, E::V>(error@),
{
}

/// The first position of a character: it stands there and nowhere before, or it
/// stands nowhere at all.
pub proof fn law_first_position(text: Seq<char>, wanted: char)
    ensures
        0 <= first_position(text, wanted) <= text.len(),
        forall|i: int| 0 <= i < first_position(text, wanted) ==> #[trigger] text[i] != wanted,
        first_position(text, wanted) < text.len() ==> text[first_position(text, wanted)] == wanted,
        first_position(text, wanted) == text.len() <==> !text.contains(wanted),
    decreases text.len(),
{
    if text.len() > 0 && text[0] != wanted {
        let rest = text.drop_first();
        law_first_position(rest, wanted);
        let position = first_position(text, wanted);
        assert forall|i: int| 0 <= i < position implies #[trigger] text[i] != wanted by {
            if i > 0 {
                assert(rest[i - 1] == text[i]);
            }
        }
        if position < text.len() {
            assert(text[position] == rest[position - 1]);
        }
    } else if text.len() > 0 {
        assert(text.contains(wanted));
    }
}

/// A text without the separator is one piece; a separator sets off what follows
/// it from the pieces before.
pub proof fn law_split(front: Seq<char>, separator: char, piece: Seq<char>)
    requires
        !piece.contains(separator),
    ensures
        split_on(piece, separator) == seq![piece],
        split_on(front + seq![separator] + piece, separator) == split_on(front, separator).push(
            piece,
        ),
    decreases piece.len(),
{
    let whole = front + seq![separator] + piece;
    let pieces = split_on(front, separator);
    if piece.len() == 0 {
        assert(whole.drop_last() =~= front);
        assert(whole.last() == separator);
        assert(piece =~= Seq::empty());
        assert(split_on(piece, separator) =~= seq![piece]);
    } else {
        let rest = piece.drop_last();
        assert forall|i: int| 0 <= i < rest.len() implies rest[i] != separator by {
            assert(piece[i] != separator);
        }
        law_split(front, separator, rest);
        assert(piece[piece.len() - 1] != separator);
        assert(rest.push(piece.last()) =~= piece);
        assert(split_on(piece, separator) =~= seq![piece]);
        assert(whole.drop_last() =~= front + seq![separator] + rest);
        assert(whole.last() == piece[piece.len() - 1]);
        let before = pieces.push(rest);
        assert(before.last() == rest);
        assert(before.update(before.len() - 1, piece) =~= pieces.push(piece));
    }
}

/// The digits are those of base ten and, in base sixteen, the letters from A to
/// F in either case.
pub proof fn law_digits(c: char)
    ensures
        '0' <= c && c <= '9' ==> digit_value(c, 10) == Some((c as int - 48) as nat)
            && digit_value(c, 16) == Some((c as int - 48) as nat),
        'a' <= c && c <= 'f' ==> digit_value(c, 16) == Some((c as int - 87) as nat),
        'A' <= c && c <= 'F' ==> digit_value(c, 16) == Some((c as int - 55) as nat),
        digit_value(c, 10) is Some <==> '0' <= c && c <= '9',
        digit_value(c, 16) is Some <==> '0' <= c && c <= '9' || 'a' <= c && c <= 'f' || 'A' <= c
            && c <= 'F',
{
}

/// A digit more multiplies the value of a numeral by the base and adds the
/// digit; anything but a digit spoils it.
pub proof fn law_numeral_value(front: Seq<char>, c: char, radix: nat)
    ensures
        numeral_value(Seq::empty(), radix) is None,
        numeral_value(seq![c], radix) == digit_value(c, radix),
        front.len() > 0 ==> numeral_value(front.push(c), radix) == (match (
            numeral_value(front, radix),
            digit_value(c, radix),
        ) {
            (Some(high), Some(low)) => Some(high * radix + low),
            _ => None,
        }),
{
    assert(front.push(c).drop_last() =~= front);
    assert(seq![c].drop_last() =~= Seq::empty());
    reveal_with_fuel(digits_value, 2);
    assert(0 * radix == 0);
}

/// The numeral of a number below ten is one digit; that of a larger one is the
/// numeral of its tenth with its last digit behind.
pub proof fn law_decimal(n: nat, digit: nat)
    requires
        digit < 10,
    ensures
        decimal(digit) == seq![(48 + digit) as char],
        n > 0 ==> decimal(n * 10 + digit) == decimal(n).push((48 + digit) as char),
{
    let larger = n * 10 + digit;
    assert(digit % 10 == digit);
    if n > 0 {
        assert(larger / 10 == n && larger % 10 == digit);
        assert(decimal(larger) =~= decimal(n).push((48 + digit) as char));
    }
}

/// Texts are ordered by the first characters in which they differ; the start of
/// a text comes before the whole.
pub proof fn law_order_of_texts(
    common: Seq<char>,
    left: char,
    right: char,
    left_rest: Seq<char>,
    right_rest: Seq<char>,
)
    ensures
        left < right ==> comes_before(
            common.push(left) + left_rest,
            common.push(right) + right_rest,
        ),
        right <= left ==> !(left != right && comes_before(
            common.push(left) + left_rest,
            common.push(right) + right_rest,
        )),
        comes_before(common, common.push(left) + left_rest),
        !comes_before(common.push(left) + left_rest, common),
{
    let one = common.push(left) + left_rest;
    let other = common.push(right) + right_rest;
    let at = common.len() as int;
    assert(one[at] == left && other[at] == right);
    assert forall|i: int| 0 <= i < at implies one[i] == other[i] && one[i] == common[i] by {}
    if left < right {
        assert(smaller_at(one, other, at));
    }
    assert(smaller_at(common, one, at));
    if right < left && comes_before(one, other) {
        let k = choose|k: int| smaller_at(one, other, k);
        assert(k <= at);
        assert(one[k] == other[k] || k == at);
    }
    if comes_before(one, common) {
        let k = choose|k: int| smaller_at(one, common, k);
        assert(one[k] == common[k]);
    }
}

} // verus!
