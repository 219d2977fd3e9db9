use crate::bounded::{name_chars, name_new, name_push};
use crate::collections::run_length::{
    all_digits, chars_of, dec, digit_char, digits_value, is_digit, lemma_dec_digits,
    lemma_digit_char, lemma_digits_prefix_le,
};
use arrayvec::ArrayString;
use vstd::prelude::*;

verus! {

// ---------------------------------------------------------------------------
// Reading room names
// ---------------------------------------------------------------------------

/// The letters of a room name that give the directions of its coordinates.
pub open spec fn is_compass(c: char) -> bool {
    c == 'W' || c == 'E' || c == 'N' || c == 'S'
}

/// The pieces of `s` between compass letters.
pub open spec fn split_compass(s: Seq<char>) -> Seq<Seq<char>>
    decreases s.len(),
{
    if s.len() == 0 {
        seq![Seq::<char>::empty()]
    } else {
        let r = split_compass(s.drop_last());
        if is_compass(s.last()) {
            r.push(Seq::<char>::empty())
        } else {
            r.update(r.len() - 1, r.last().push(s.last()))
        }
    }
}

/// What parsing `s` as an `i16` gives: an optional sign, one or more decimal
/// digits, a value in the range of `i16`.
pub open spec fn parse_i16(s: Seq<char>) -> Option<int> {
    let neg = s.len() > 0 && s[0] == '-';
    let t = if s.len() > 0 && (s[0] == '+' || s[0] == '-') {
        s.drop_first()
    } else {
        s
    };
    let limit: nat = if neg {
        32768
    } else {
        32767
    };
    if t.len() > 0 && all_digits(t) && digits_value(t) <= limit {
        Some(
            if neg {
                -(digits_value(t) as int)
            } else {
                digits_value(t) as int
            },
        )
    } else {
        None
    }
}

/// The pieces that parse as `i16`, parsed, in order.
pub open spec fn parsed_numbers(parts: Seq<Seq<char>>) -> Seq<int>
    decreases parts.len(),
{
    if parts.len() == 0 {
        Seq::empty()
    } else {
        parsed_numbers(parts.drop_last()) + match parse_i16(parts.last()) {
            Some(v) => seq![v],
            None => Seq::empty(),
        }
    }
}

/// Number of occurrences of `c` in `s`.
pub open spec fn count_char(s: Seq<char>, c: char) -> nat
    decreases s.len(),
{
    if s.len() == 0 {
        0
    } else {
        count_char(s.drop_last(), c) + if s.last() == c {
            1nat
        } else {
            0nat
        }
    }
}

/// `v` with its sign flipped `times` times.
pub open spec fn flip(v: int, times: nat) -> int {
    if times % 2 == 0 {
        v
    } else {
        -v
    }
}

/// The coordinates that a room name stands for: the two numbers of the
/// name, the first negated once per `'W'`, the second once per `'S'`.
pub open spec fn room_coords(s: Seq<char>) -> Option<(int, int)> {
    let nums = parsed_numbers(split_compass(s));
    if nums.len() != 2 {
        None
    } else {
        Some((flip(nums[0], count_char(s, 'W')), flip(nums[1], count_char(s, 'S'))))
    }
}

/// Whether negating a coordinate of the name would overflow an `i16`.
pub open spec fn room_name_overflows(s: Seq<char>) -> bool {
    let nums = parsed_numbers(split_compass(s));
    nums.len() == 2 && ((nums[0] == -32768 && count_char(s, 'W') > 0) || (nums[1] == -32768
        && count_char(s, 'S') > 0))
}

// ---------------------------------------------------------------------------
// Writing room names
// ---------------------------------------------------------------------------

/// `10` to the power `k`.
pub open spec fn pow10(k: nat) -> nat
    decreases k,
{
    if k == 0 {
        1
    } else {
        10 * pow10((k - 1) as nat)
    }
}

/// Count of digits the name writer uses: from `count` digits at `i` (a power
/// of ten), one more while `i * 10 < num`.
pub open spec fn digits_from(i: nat, count: nat, num: nat) -> nat
    decreases num - i,
{
    if i > 0 && i * 10 < num {
        digits_from(i * 10, count + 1, num)
    } else {
        count
    }
}

/// Number of digits the name writer uses for `num`: the least `k >= 1` with
/// `10^k >= num`. One fewer than the digits of `num` for `10`, `100`, ...
pub open spec fn spec_len_of_num(num: nat) -> nat {
    digits_from(1, 1, num)
}

/// The last `len` decimal digits of `num`, most significant first.
pub open spec fn low_digits(num: nat, len: nat) -> Seq<char>
    decreases len,
{
    if len == 0 {
        Seq::empty()
    } else {
        low_digits(num / 10, (len - 1) as nat).push(digit_char(num % 10))
    }
}

/// Absolute value of an integer.
pub open spec fn abs_int(v: int) -> int {
    if v < 0 {
        -v
    } else {
        v
    }
}

/// The name written for a room at `(x, y)`.
pub open spec fn room_name(x: int, y: int) -> Seq<char> {
    let ax = abs_int(x) as nat;
    let ay = abs_int(y) as nat;
    seq![if x >= 0 { 'E' } else { 'W' }] + low_digits(ax, spec_len_of_num(ax)) + seq![
        if y >= 0 { 'N' } else { 'S' },
    ] + low_digits(ay, spec_len_of_num(ay))
}

/// Representing positions of rooms: `[x, y]`, east and north positive.
#[derive(Debug, Clone, Copy, PartialEq, Eq, PartialOrd, Ord, Default, Hash)]
pub struct WorldPosition(pub [i16; 2]);

impl WorldPosition {
    /// The coordinates `(x, y)`.
    pub open spec fn coords(&self) -> (int, int) {
        (self.0[0] as int, self.0[1] as int)
    }

    /// Manhattan distance to another room.
    pub fn dist(&self, other: WorldPosition) -> (d: u16)
        requires
            abs_int(self.0[0] - other.0[0]) + abs_int(self.0[1] - other.0[1]) <= i16::MAX,
            self.0[0] - other.0[0] != i16::MIN,
            self.0[1] - other.0[1] != i16::MIN,
            i16::MIN <= self.0[0] - other.0[0],
            i16::MIN <= self.0[1] - other.0[1],
        ensures
            d == abs_int(self.0[0] - other.0[0]) + abs_int(self.0[1] - other.0[1]),
    {
        let dx: i16 = self.0[0] - other.0[0];
        let dy: i16 = self.0[1] - other.0[1];
        let x: i16 = if dx < 0 { -dx } else { dx };
        let y: i16 = if dy < 0 { -dy } else { dy };
        (x + y) as u16
    }

    /// Returns the coordinates of the room.
    pub fn parse_name(room_name: &str) -> (r: Result<Self, &'static str>)
        requires
            !room_name_overflows(room_name@),
        ensures
            room_coords(room_name@) is None ==> (r matches Err(m) && m@
                == "Failed to parse coordinates"@),
            room_coords(room_name@) matches Some(c) ==> (r matches Ok(p) && p.coords() == c),
    {
        let chars = chars_of(room_name);
        let parts = split_compass_ranges(&chars);
        let ghost pieces = split_compass(chars@);
        let mut nums: Vec<i16> = Vec::new();
        let mut k: usize = 0;
        while k < parts.len()
            invariant
                k <= parts@.len(),
                parts@.len() == pieces.len(),
                forall|j: int|
                    0 <= j < parts@.len() ==> (#[trigger] parts@[j]).0 <= parts@[j].1 <= chars@.len()
                        && chars@.subrange(parts@[j].0 as int, parts@[j].1 as int) == pieces[j],
                nums@.len() == parsed_numbers(pieces.take(k as int)).len(),
                forall|j: int|
                    0 <= j < nums@.len() ==> nums@[j] == #[trigger] parsed_numbers(
                        pieces.take(k as int),
                    )[j],
            decreases parts@.len() - k,
        {
            let (a, b) = parts[k];
            let ghost prev = parsed_numbers(pieces.take(k as int));
            assert(pieces.take(k + 1).drop_last() =~= pieces.take(k as int));
            match parse_i16_range(&chars, a, b) {
                Some(v) => {
                    nums.push(v);
                    assert(parsed_numbers(pieces.take(k + 1)) =~= prev + seq![v as int]);
                },
                None => {
                    assert(parsed_numbers(pieces.take(k + 1)) =~= prev);
                },
            }
            k = k + 1;
        }
        assert(pieces.take(parts@.len() as int) =~= pieces);
        assert(chars@ == room_name@);
        if nums.len() != 2 {
            return Err("Failed to parse coordinates");
        }
        let mut x = nums[0];
        let mut y = nums[1];
        let ghost x0 = x as int;
        let ghost y0 = y as int;
        let n = chars.len();
        let mut i: usize = 0;
        while i < n
            invariant
                n == chars@.len(),
                i <= n,
                x == flip(x0, count_char(chars@.take(i as int), 'W')),
                y == flip(y0, count_char(chars@.take(i as int), 'S')),
                x0 == -32768 ==> count_char(chars@, 'W') == 0,
                y0 == -32768 ==> count_char(chars@, 'S') == 0,
                -32768 <= x0 <= 32767,
                -32768 <= y0 <= 32767,
            decreases n - i,
        {
            let c = chars[i];
            assert(chars@.take(i + 1).drop_last() =~= chars@.take(i as int));
            proof {
                lemma_count_prefix(chars@, i + 1, 'W');
                lemma_count_prefix(chars@, i + 1, 'S');
            }
            if c == 'W' {
                x = -x;
            } else if c == 'S' {
                y = -y;
            }
            i = i + 1;
        }
        assert(chars@.take(n as int) =~= chars@);
        Ok(WorldPosition([x, y]))
    }

    /// Return the neighbouring positions in order: [N, W, S, E].
    pub fn neighbours_in_vectors(&self) -> (r: [Self; 4])
        requires
            self.0[0] < i16::MAX,
            self.0[0] > i16::MIN,
            self.0[1] < i16::MAX,
            self.0[1] > i16::MIN,
        ensures
            r[0].coords() == (self.coords().0, self.coords().1 + 1),
            r[1].coords() == (self.coords().0 - 1, self.coords().1),
            r[2].coords() == (self.coords().0, self.coords().1 - 1),
            r[3].coords() == (self.coords().0 + 1, self.coords().1),
    {
        let x = self.0[0];
        let y = self.0[1];
        [
            WorldPosition([x, y + 1]),
            WorldPosition([x - 1, y]),
            WorldPosition([x, y - 1]),
            WorldPosition([x + 1, y]),
        ]
    }

    /// The name of the room, such as `"W12N3"`.
    pub fn to_string(&self) -> (r: ArrayString<16>)
        requires
            -10000 <= self.0[0] <= 10000,
            -10000 <= self.0[1] <= 10000,
        ensures
            name_chars(r) == room_name(self.coords().0, self.coords().1),
    {
        let x = self.0[0];
        let y = self.0[1];
        let w = if x >= 0 { 'E' } else { 'W' };
        let n = if y >= 0 { 'N' } else { 'S' };
        let mut result = name_new();
        proof {
            lemma_ascii_push(name_chars(result), w);
        }
        name_push(&mut result, w);
        assert(name_chars(result).len() == 1);
        let ax: u16 = if x < 0 { (-x) as u16 } else { x as u16 };
        push_low_digits(&mut result, ax);
        assert(spec_len_of_num(ax as nat) <= 4);
        let ghost mid = name_chars(result);
        assert(mid.len() <= 5);
        proof {
            lemma_ascii_push(mid, n);
        }
        name_push(&mut result, n);
        assert(name_chars(result).len() <= 6);
        let ay: u16 = if y < 0 { (-y) as u16 } else { y as u16 };
        push_low_digits(&mut result, ay);
        assert(name_chars(result) =~= room_name(x as int, y as int));
        result
    }
}

/// Count of digits used to write `num` in a room name.
fn len_of_num(num: u16) -> (count: i32)
    requires
        num <= 10000,
    ensures
        count == spec_len_of_num(num as nat),
        1 <= count <= 4,
{
    let mut i: u16 = 1;
    let mut count: i32 = 1;
    proof {
        lemma_pow10_values();
    }
    while i * 10 < num
        invariant
            1 <= i <= 1000,
            i == pow10((count - 1) as nat),
            1 <= count <= 4,
            num <= 10000,
            digits_from(i as nat, count as nat, num as nat) == spec_len_of_num(num as nat),
        decreases num - i,
    {
        proof {
            lemma_pow10_values();
        }
        i = i * 10;
        count = count + 1;
        assert(pow10((count - 1) as nat) == 10 * pow10((count - 2) as nat));
    }
    count
}

/// Append the last `len_of_num(num)` digits of `num`.
fn push_low_digits(result: &mut ArrayString<16>, num: u16)
    requires
        num <= 10000,
        name_chars(*old(result)).len() <= 6,
        vstd::utf8::is_ascii_chars(name_chars(*old(result))),
    ensures
        name_chars(*final(result)) == name_chars(*old(result)) + low_digits(
            num as nat,
            spec_len_of_num(num as nat),
        ),
        name_chars(*final(result)).len() <= 10,
        name_chars(*final(result)).len() == name_chars(*old(result)).len() + spec_len_of_num(
            num as nat,
        ),
        spec_len_of_num(num as nat) <= 4,
        vstd::utf8::is_ascii_chars(name_chars(*final(result))),
{
    let len = len_of_num(num);
    let ghost start = name_chars(*result);
    let mut i: i32 = len;
    proof {
        lemma_pow10_pos(len as nat);
        assert(low_digits_window(num as nat, len as nat, len as nat) =~= Seq::<char>::empty());
        assert(start + low_digits_window(num as nat, len as nat, len as nat) =~= start);
    }
    while i > 0
        invariant
            0 <= i <= len <= 4,
            len == spec_len_of_num(num as nat),
            name_chars(*result) == start + low_digits_window(num as nat, len as nat, i as nat),
            start.len() <= 6,
            vstd::utf8::is_ascii_chars(start),
            vstd::utf8::is_ascii_chars(name_chars(*result)),
        decreases i,
    {
        i = i - 1;
        proof {
            lemma_pow10_pos(i as nat);
            lemma_low_digits_len(num as nat / pow10((i + 1) as nat), (len - (i + 1)) as nat);
        }
        let factor: u32 = pow10_u32(i as u32);
        let digit = (num as u32 / factor) % 10;
        let c = (digit as u8 + '0' as u8) as char;
        proof {
            lemma_digit_char(digit as nat);
            assert(c == digit_char(digit as nat));
            lemma_low_digits_window_step(num as nat, len as nat, i as nat);
            lemma_ascii_push(name_chars(*result), c);
        }
        name_push(result, c);
    }
    proof {
        lemma_low_digits_window_full(num as nat, len as nat);
        lemma_low_digits_len(num as nat, len as nat);
    }
}

proof fn lemma_pow10_values()
    ensures
        pow10(0) == 1,
        pow10(1) == 10,
        pow10(2) == 100,
        pow10(3) == 1000,
        pow10(4) == 10000,
{
    reveal_with_fuel(pow10, 5);
}

proof fn lemma_low_digits_len(num: nat, len: nat)
    ensures
        low_digits(num, len).len() == len,
    decreases len,
{
    if len > 0 {
        lemma_low_digits_len(num / 10, (len - 1) as nat);
    }
}

/// `10^k` for `k < 5`.
fn pow10_u32(k: u32) -> (r: u32)
    requires
        k < 5,
    ensures
        r == pow10(k as nat),
{
    let mut r: u32 = 1;
    let mut j: u32 = 0;
    proof {
        lemma_pow10_values();
    }
    while j < k
        invariant
            j <= k < 5,
            r == pow10(j as nat),
            r <= 10000,
        decreases k - j,
    {
        proof {
            lemma_pow10_values();
        }
        r = r * 10;
        j = j + 1;
    }
    r
}

/// The digits written so far when `i` of the `len` low digits of `num`
/// remain to be written.
pub open spec fn low_digits_window(num: nat, len: nat, i: nat) -> Seq<char> {
    low_digits(num / pow10(i), (len - i) as nat)
}

proof fn lemma_pow10_pos(k: nat)
    ensures
        pow10(k) >= 1,
    decreases k,
{
    if k > 0 {
        lemma_pow10_pos((k - 1) as nat);
    }
}

proof fn lemma_low_digits_window_step(num: nat, len: nat, i: nat)
    requires
        i < len,
    ensures
        low_digits_window(num, len, i) == low_digits_window(num, len, i + 1).push(
            digit_char((num / pow10(i)) % 10),
        ),
{
    lemma_pow10_pos(i);
    let q = num / pow10(i);
    assert(pow10(i + 1) == 10 * pow10(i));
    assert(q / 10 == num / pow10(i + 1)) by {
        vstd::arithmetic::div_mod::lemma_div_denominator(num as int, pow10(i) as int, 10);
        assert(pow10(i) * 10 == pow10(i + 1)) by (nonlinear_arith)
            requires
                pow10(i + 1) == 10 * pow10(i),
        ;
    }
    assert((len - i) as nat - 1 == (len - (i + 1)) as nat);
}

proof fn lemma_low_digits_window_full(num: nat, len: nat)
    ensures
        low_digits_window(num, len, 0) == low_digits(num, len),
{
    assert(pow10(0) == 1);
    assert(num / 1 == num);
}

proof fn lemma_ascii_push(s: Seq<char>, c: char)
    requires
        vstd::utf8::is_ascii_chars(s),
        '\0' <= c <= '\u{7f}',
    ensures
        vstd::utf8::is_ascii_chars(s.push(c)),
{
    assert forall|i: int| 0 <= i < s.push(c).len() implies '\0' <= #[trigger] s.push(c)[i] <= '\u{7f}' by {
        if i < s.len() {
            assert(s.push(c)[i] == s[i]);
        }
    }
}

proof fn lemma_count_prefix(s: Seq<char>, k: int, c: char)
    requires
        0 <= k <= s.len(),
    ensures
        count_char(s.take(k), c) <= count_char(s, c),
        k > 0 && s[k - 1] == c ==> count_char(s, c) > 0,
    decreases s.len(),
{
    if k < s.len() {
        assert(s.drop_last().take(k) =~= s.take(k));
        lemma_count_prefix(s.drop_last(), k, c);
        if k > 0 && s[k - 1] == c {
            assert(s.drop_last()[k - 1] == c);
        }
    } else {
        assert(s.take(k) =~= s);
        if k > 0 && s[k - 1] == c {
            assert(s.last() == c);
        }
    }
}

// ---------------------------------------------------------------------------
// Names read back
// ---------------------------------------------------------------------------

proof fn lemma_split_compass_nonempty(s: Seq<char>)
    ensures
        split_compass(s).len() >= 1,
    decreases s.len(),
{
    if s.len() > 0 {
        lemma_split_compass_nonempty(s.drop_last());
    }
}

proof fn lemma_split_compass_plain(a: Seq<char>, b: Seq<char>)
    requires
        forall|i: int| 0 <= i < b.len() ==> !is_compass(#[trigger] b[i]),
    ensures
        split_compass(a + b) == split_compass(a).update(
            split_compass(a).len() - 1,
            split_compass(a).last() + b,
        ),
    decreases b.len(),
{
    lemma_split_compass_nonempty(a);
    if b.len() == 0 {
        assert(a + b =~= a);
        assert(split_compass(a).last() + b =~= split_compass(a).last());
        assert(split_compass(a).update(split_compass(a).len() - 1, split_compass(a).last())
            =~= split_compass(a));
    } else {
        let b0 = b.drop_last();
        lemma_split_compass_plain(a, b0);
        assert((a + b).drop_last() =~= a + b0);
        assert((a + b).last() == b.last());
        assert(!is_compass(b[b.len() - 1]));
        lemma_split_compass_nonempty(a + b0);
        let r = split_compass(a + b0);
        assert(r.last().push(b.last()) =~= split_compass(a).last() + b);
        assert(r.update(r.len() - 1, r.last().push(b.last())) =~= split_compass(a).update(
            split_compass(a).len() - 1,
            split_compass(a).last() + b,
        ));
    }
}

proof fn lemma_split_compass_letter(a: Seq<char>, c: char)
    requires
        is_compass(c),
    ensures
        split_compass(a + seq![c]) == split_compass(a).push(Seq::<char>::empty()),
{
    assert((a + seq![c]).drop_last() =~= a);
}

proof fn lemma_count_concat(a: Seq<char>, b: Seq<char>, c: char)
    ensures
        count_char(a + b, c) == count_char(a, c) + count_char(b, c),
    decreases b.len(),
{
    if b.len() == 0 {
        assert(a + b =~= a);
    } else {
        lemma_count_concat(a, b.drop_last(), c);
        assert((a + b).drop_last() =~= a + b.drop_last());
    }
}

proof fn lemma_count_digits(s: Seq<char>, c: char)
    requires
        all_digits(s),
        !is_digit(c),
    ensures
        count_char(s, c) == 0,
    decreases s.len(),
{
    if s.len() > 0 {
        assert(s.drop_last().len() < s.len());
        assert forall|i: int| 0 <= i < s.drop_last().len() implies is_digit(#[trigger] s.drop_last()[i]) by {
            assert(s.drop_last()[i] == s[i]);
        }
        lemma_count_digits(s.drop_last(), c);
        assert(is_digit(s[s.len() - 1]));
    }
}

proof fn lemma_low_digits_dec(n: nat)
    ensures
        low_digits(n, dec(n).len()) == dec(n),
    decreases n,
{
    if n < 10 {
        assert(low_digits(n, 1) == low_digits(n / 10, 0).push(digit_char(n % 10)));
        assert(low_digits(n, 1) =~= dec(n));
    } else {
        lemma_low_digits_dec(n / 10);
        assert(dec(n).len() == dec(n / 10).len() + 1);
    }
}

proof fn lemma_len_of_num_digits(n: nat)
    requires
        n <= 10000,
        n != 10 && n != 100 && n != 1000 && n != 10000,
    ensures
        spec_len_of_num(n) == dec(n).len(),
{
    reveal_with_fuel(digits_from, 5);
    reveal_with_fuel(dec, 5);
    if n < 10 {
    } else if n < 100 {
        assert(dec(n) == dec(n / 10).push(digit_char(n % 10)));
    } else if n < 1000 {
        assert(dec(n / 10) == dec(n / 100).push(digit_char((n / 10) % 10)));
    } else {
        assert(dec(n / 100) == dec(n / 1000).push(digit_char((n / 100) % 10)));
    }
}

proof fn lemma_parse_dec(n: nat)
    requires
        n <= 32767,
    ensures
        parse_i16(dec(n)) == Some(n as int),
        forall|i: int| 0 <= i < dec(n).len() ==> !is_compass(#[trigger] dec(n)[i]),
{
    lemma_dec_digits(n);
    assert(is_digit(dec(n)[0]));
    assert forall|i: int| 0 <= i < dec(n).len() implies !is_compass(#[trigger] dec(n)[i]) by {
        assert(is_digit(dec(n)[i]));
    }
}

/// Reading back the name written for a room gives the room, for rooms at
/// most 10000 away from the origin on each axis whose distance from an axis
/// is not 10, 100, 1000 or 10000 (for those the name drops a digit).
pub proof fn law_room_name_round_trip(x: int, y: int)
    requires
        -10000 <= x <= 10000,
        -10000 <= y <= 10000,
        abs_int(x) != 10 && abs_int(x) != 100 && abs_int(x) != 1000 && abs_int(x) != 10000,
        abs_int(y) != 10 && abs_int(y) != 100 && abs_int(y) != 1000 && abs_int(y) != 10000,
    ensures
        !room_name_overflows(room_name(x, y)),
        room_coords(room_name(x, y)) == Some((x, y)),
{
    let ax = abs_int(x) as nat;
    let ay = abs_int(y) as nat;
    let c1 = if x >= 0 { 'E' } else { 'W' };
    let c2 = if y >= 0 { 'N' } else { 'S' };
    lemma_len_of_num_digits(ax);
    lemma_len_of_num_digits(ay);
    lemma_low_digits_dec(ax);
    lemma_low_digits_dec(ay);
    let d1 = dec(ax);
    let d2 = dec(ay);
    let name = room_name(x, y);
    assert(name == seq![c1] + d1 + seq![c2] + d2);
    lemma_parse_dec(ax);
    lemma_parse_dec(ay);
    // the pieces between compass letters
    let e = Seq::<char>::empty();
    lemma_split_compass_letter(e, c1);
    assert(e + seq![c1] =~= seq![c1]);
    assert(split_compass(e) =~= seq![e]);
    lemma_split_compass_plain(seq![c1], d1);
    lemma_split_compass_letter(seq![c1] + d1, c2);
    lemma_split_compass_plain(seq![c1] + d1 + seq![c2], d2);
    assert(e + d1 =~= d1);
    assert(e + d2 =~= d2);
    let pieces = split_compass(name);
    assert(pieces =~= seq![e, d1, d2]);
    assert(parse_i16(e) is None);
    assert(pieces.drop_last() =~= seq![e, d1]);
    assert(pieces.drop_last().drop_last() =~= seq![e]);
    assert(seq![e].drop_last() =~= Seq::<Seq<char>>::empty());
    assert(seq![e].last() == e);
    assert(parsed_numbers(seq![e]) == parsed_numbers(Seq::<Seq<char>>::empty()) + Seq::<int>::empty());
    assert(parsed_numbers(seq![e]) =~= Seq::<int>::empty());
    assert(seq![e, d1].drop_last() =~= seq![e]);
    assert(seq![e, d1].last() == d1);
    assert(parsed_numbers(seq![e, d1]) == parsed_numbers(seq![e]) + seq![ax as int]);
    assert(parsed_numbers(seq![e, d1]) =~= seq![ax as int]);
    assert(pieces.last() == d2);
    assert(parsed_numbers(pieces) == parsed_numbers(seq![e, d1]) + seq![ay as int]);
    assert(parsed_numbers(pieces) =~= seq![ax as int, ay as int]);
    // the compass letters
    lemma_dec_digits(ax);
    lemma_dec_digits(ay);
    lemma_count_digits(d1, 'W');
    lemma_count_digits(d2, 'W');
    lemma_count_digits(d1, 'S');
    lemma_count_digits(d2, 'S');
    lemma_count_concat(seq![c1] + d1 + seq![c2], d2, 'W');
    lemma_count_concat(seq![c1] + d1, seq![c2], 'W');
    lemma_count_concat(seq![c1], d1, 'W');
    lemma_count_concat(seq![c1] + d1 + seq![c2], d2, 'S');
    lemma_count_concat(seq![c1] + d1, seq![c2], 'S');
    lemma_count_concat(seq![c1], d1, 'S');
    assert(seq![c1].drop_last() =~= e);
    assert(seq![c2].drop_last() =~= e);
    assert(seq![c1].last() == c1);
    assert(seq![c2].last() == c2);
    assert(count_char(e, 'W') == 0 && count_char(e, 'S') == 0);
    assert(count_char(seq![c1], 'W') == count_char(e, 'W') + if c1 == 'W' { 1nat } else { 0nat });
    assert(count_char(seq![c2], 'S') == count_char(e, 'S') + if c2 == 'S' { 1nat } else { 0nat });
    assert(count_char(seq![c1], 'S') == count_char(e, 'S') + if c1 == 'S' { 1nat } else { 0nat });
    assert(count_char(seq![c2], 'W') == count_char(e, 'W') + if c2 == 'W' { 1nat } else { 0nat });
    assert(count_char(seq![c1], 'W') == if x < 0 { 1nat } else { 0nat });
    assert(count_char(seq![c2], 'S') == if y < 0 { 1nat } else { 0nat });
    assert(count_char(seq![c1], 'S') == 0);
    assert(count_char(seq![c2], 'W') == 0);
}

// ---------------------------------------------------------------------------
// Executable helpers for reading names
// ---------------------------------------------------------------------------

fn is_compass_char(c: char) -> (b: bool)
    ensures
        b == is_compass(c),
{
    c == 'W' || c == 'E' || c == 'N' || c == 'S'
}

/// Bounds of the pieces of `s` between compass letters.
fn split_compass_ranges(s: &Vec<char>) -> (r: Vec<(usize, usize)>)
    ensures
        r@.len() == split_compass(s@).len(),
        forall|k: int|
            0 <= k < r@.len() ==> (#[trigger] r@[k]).0 <= r@[k].1 <= s@.len() && s@.subrange(
                r@[k].0 as int,
                r@[k].1 as int,
            ) == split_compass(s@)[k],
{
    let hi = s.len();
    let mut r: Vec<(usize, usize)> = Vec::new();
    let mut start: usize = 0;
    let mut i: usize = 0;
    assert(split_compass(s@.take(0)) =~= seq![Seq::<char>::empty()]);
    while i < hi
        invariant
            hi == s@.len(),
            start <= i <= hi,
            r@.len() + 1 == split_compass(s@.take(i as int)).len(),
            forall|k: int|
                0 <= k < r@.len() ==> (#[trigger] r@[k]).0 <= r@[k].1 <= i && s@.subrange(
                    r@[k].0 as int,
                    r@[k].1 as int,
                ) == split_compass(s@.take(i as int))[k],
            s@.subrange(start as int, i as int) == split_compass(s@.take(i as int)).last(),
        decreases hi - i,
    {
        assert(s@.take(i + 1).drop_last() =~= s@.take(i as int));
        if is_compass_char(s[i]) {
            r.push((start, i));
            start = i + 1;
            assert(s@.subrange(start as int, i + 1) =~= Seq::<char>::empty());
        } else {
            assert(s@.subrange(start as int, i + 1) =~= s@.subrange(start as int, i as int).push(
                s@[i as int],
            ));
        }
        i = i + 1;
    }
    r.push((start, hi));
    assert(s@.take(hi as int) =~= s@);
    r
}

/// Parse `s[a..b]` as an `i16`.
fn parse_i16_range(s: &Vec<char>, a: usize, b: usize) -> (r: Option<i16>)
    requires
        a <= b <= s@.len(),
    ensures
        r matches Some(v) ==> parse_i16(s@.subrange(a as int, b as int)) == Some(v as int),
        r is None ==> parse_i16(s@.subrange(a as int, b as int)) is None,
{
    let ghost whole = s@.subrange(a as int, b as int);
    let mut i = a;
    let mut neg = false;
    if i < b && (s[i] == '+' || s[i] == '-') {
        neg = s[i] == '-';
        i = i + 1;
    }
    let ghost t = s@.subrange(i as int, b as int);
    let limit: u32 = if neg { 32768 } else { 32767 };
    assert(t =~= (if whole.len() > 0 && (whole[0] == '+' || whole[0] == '-') {
        whole.drop_first()
    } else {
        whole
    }));
    assert(neg == (whole.len() > 0 && whole[0] == '-'));
    if i >= b {
        return None;
    }
    let start = i;
    let mut acc: u32 = 0;
    while i < b
        invariant
            a <= start <= i <= b <= s@.len(),
            t == s@.subrange(start as int, b as int),
            whole == s@.subrange(a as int, b as int),
            t.len() > 0,
            limit == (if neg { 32768u32 } else { 32767u32 }),
            neg == (whole.len() > 0 && whole[0] == '-'),
            t == (if whole.len() > 0 && (whole[0] == '+' || whole[0] == '-') {
                whole.drop_first()
            } else {
                whole
            }),
            all_digits(s@.subrange(start as int, i as int)),
            acc == digits_value(s@.subrange(start as int, i as int)),
            acc <= limit,
        decreases b - i,
    {
        let c = s[i];
        if !('0' <= c && c <= '9') {
            assert(t[i - start] == c);
            assert(!is_digit(t[i - start]));
            assert(!all_digits(t));
            return None;
        }
        let d = c as u32 - 48;
        assert(s@.subrange(start as int, i + 1).drop_last() =~= s@.subrange(start as int, i as int));
        acc = acc * 10 + d;
        i = i + 1;
        assert forall|k: int| 0 <= k < i - start implies is_digit(
            #[trigger] s@.subrange(start as int, i as int)[k],
        ) by {
            if k < i - 1 - start {
                assert(s@.subrange(start as int, i as int)[k] == s@.subrange(
                    start as int,
                    i - 1,
                )[k]);
            }
        }
        if acc > limit {
            proof {
                lemma_digits_prefix_le(t, i - start);
                assert(t.take(i - start) =~= s@.subrange(start as int, i as int));
            }
            return None;
        }
    }
    assert(s@.subrange(start as int, b as int) == t);
    if neg {
        Some((0 - acc as i32) as i16)
    } else {
        Some(acc as i16)
    }
}

} // verus!
