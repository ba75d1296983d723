use vstd::prelude::*;

verus! {

/// The fields of a line, cut at every comma: a line with `n` commas has
/// `n + 1` fields, none holding a comma.
pub open spec fn split_commas(s: Seq<char>) -> Seq<Seq<char>>
    decreases s.len(),
{
    if s.len() == 0 {
        seq![Seq::<char>::empty()]
    } else {
        let fields = split_commas(s.drop_last());
        if s.last() == ',' {
            fields.push(Seq::<char>::empty())
        } else {
            fields.update(fields.len() - 1, fields.last().push(s.last()))
        }
    }
}

/// The fields joined back with commas.
pub open spec fn join_commas(fields: Seq<Seq<char>>) -> Seq<char>
    decreases fields.len(),
{
    if fields.len() <= 1 {
        if fields.len() == 0 {
            Seq::<char>::empty()
        } else {
            fields[0]
        }
    } else {
        join_commas(fields.drop_last()) + seq![','] + fields.last()
    }
}

/// Splitting always yields at least one field.
pub proof fn lemma_split_nonempty(s: Seq<char>)
    ensures
        split_commas(s).len() >= 1,
    decreases s.len(),
{
    if s.len() > 0 {
        lemma_split_nonempty(s.drop_last());
    }
}

/// Joining the fields of a line with commas gives the line back, and no
/// field holds a comma.
pub proof fn lemma_split_join(s: Seq<char>)
    ensures
        join_commas(split_commas(s)) == s,
        forall|i: int|
            0 <= i < split_commas(s).len() ==> !(#[trigger] split_commas(s)[i]).contains(','),
    decreases s.len(),
{
    if s.len() > 0 {
        let prev = s.drop_last();
        lemma_split_join(prev);
        lemma_split_nonempty(prev);
        let f = split_commas(prev);
        let g = split_commas(s);
        let c = s.last();
        assert(s == prev.push(c));
        if c == ',' {
            assert(g.drop_last() == f);
            assert(join_commas(g) == join_commas(f) + seq![','] + Seq::<char>::empty());
            assert(join_commas(g) == s);
            assert forall|i: int| 0 <= i < g.len() implies !(#[trigger] g[i]).contains(',') by {
                if i < f.len() {
                    assert(g[i] == f[i]);
                } else {
                    assert(g[i] == Seq::<char>::empty());
                }
            }
        } else {
            let n = f.len();
            if n == 1 {
                assert(join_commas(g) == g[0]);
                assert(join_commas(f) == f[0]);
            } else {
                assert(g.drop_last() == f.drop_last());
                assert(join_commas(f) == join_commas(f.drop_last()) + seq![','] + f.last());
                assert(join_commas(g) == join_commas(f.drop_last()) + seq![','] + f.last().push(c));
            }
            assert(join_commas(g) == s);
            assert forall|i: int| 0 <= i < g.len() implies !(#[trigger] g[i]).contains(',') by {
                if i < n - 1 {
                    assert(g[i] == f[i]);
                } else {
                    assert(g[i] == f[n - 1].push(c));
                    assert(!f[n - 1].contains(','));
                    if g[i].contains(',') {
                        let j = choose|j: int| 0 <= j < g[i].len() && g[i][j] == ',';
                        if j < f[n - 1].len() {
                            assert(f[n - 1][j] == ',');
                        }
                    }
                }
            }
        }
    }
}

/// A text without commas is a single field.
pub proof fn lemma_split_comma_free(x: Seq<char>)
    requires
        !x.contains(','),
    ensures
        split_commas(x) == seq![x],
    decreases x.len(),
{
    if x.len() > 0 {
        let y = x.drop_last();
        assert(!y.contains(',')) by {
            if y.contains(',') {
                let j = choose|j: int| 0 <= j < y.len() && y[j] == ',';
                assert(x[j] == ',');
            }
        }
        lemma_split_comma_free(y);
        assert(x.last() != ',') by {
            assert(x[x.len() - 1] == x.last());
        }
        assert(y.push(x.last()) == x);
    } else {
        assert(x == Seq::<char>::empty());
    }
}

/// Cutting at a comma: the fields of `a`, a comma, then `b` are the fields
/// of `a` followed by the fields of `b`.
pub proof fn lemma_split_concat(a: Seq<char>, b: Seq<char>)
    ensures
        split_commas(a + seq![','] + b) == split_commas(a) + split_commas(b),
    decreases b.len(),
{
    let head = a + seq![','];
    lemma_split_nonempty(a);
    if b.len() == 0 {
        assert(head + b == head);
        assert(head.drop_last() == a);
        assert(head.last() == ',');
        assert(split_commas(b) == seq![Seq::<char>::empty()]);
        assert(split_commas(a).push(Seq::<char>::empty()) == split_commas(a) + seq![
            Seq::<char>::empty(),
        ]);
    } else {
        let b1 = b.drop_last();
        let c = b.last();
        lemma_split_concat(a, b1);
        lemma_split_nonempty(b1);
        let whole = head + b;
        assert(whole.drop_last() == head + b1);
        assert(whole.last() == c);
        let x = split_commas(a);
        let y = split_commas(b1);
        if c == ',' {
            assert((x + y).push(Seq::<char>::empty()) == x + y.push(Seq::<char>::empty()));
        } else {
            let xy = x + y;
            assert(xy.update(xy.len() - 1, xy.last().push(c)) == x + y.update(
                y.len() - 1,
                y.last().push(c),
            ));
        }
    }
}

/// Classifying two-field lines: `RATE,x` is a rate that reads `x` as an
/// `i32`, `AVAIL,x` an availability read the same way, and `T,x` a
/// temperature written `x`, for any comma-free `x`.
pub proof fn lemma_classify_two_fields(x: Seq<char>, cmd: LineCommand)
    requires
        !x.contains(','),
    ensures
        classifies(seq!['R', 'A', 'T', 'E'] + seq![','] + x, cmd) ==> cmd == LineCommand::Rate(
            parsed_i32(x),
        ),
        classifies(seq!['A', 'V', 'A', 'I', 'L'] + seq![','] + x, cmd) ==> cmd
            == LineCommand::Avail(parsed_i32(x)),
        classifies(seq!['T'] + seq![','] + x, cmd) ==> (cmd matches LineCommand::Thermo(v) && v@
            == x),
{
    lemma_split_comma_free(x);
    let tags = seq![seq!['R', 'A', 'T', 'E'], seq!['A', 'V', 'A', 'I', 'L'], seq!['T']];
    assert forall|k: int| 0 <= k < 3 implies split_commas(tags[k] + seq![','] + x) == seq![
        tags[k],
        x,
    ] by {
        let t = tags[k];
        assert(!t.contains(',')) by {
            if t.contains(',') {
                let j = choose|j: int| 0 <= j < t.len() && t[j] == ',';
            }
        }
        lemma_split_comma_free(t);
        lemma_split_concat(t, x);
        assert(seq![t] + seq![x] == seq![t, x]);
    }
    assert(split_commas(tags[0] + seq![','] + x) == seq![tags[0], x]);
    assert(split_commas(tags[1] + seq![','] + x) == seq![tags[1], x]);
    assert(split_commas(tags[2] + seq![','] + x) == seq![tags[2], x]);
    assert(tags[0] != tags[1] && tags[0] != tags[2] && tags[1] != tags[2]) by {
        assert(tags[0].len() != tags[1].len());
        assert(tags[0].len() != tags[2].len());
        assert(tags[1].len() != tags[2].len());
    }
    assert(seq!['A'] != tags[0] && seq!['A'] != tags[1] && seq!['A'] != tags[2]) by {
        assert(seq!['A'].len() == 1);
        assert(seq!['A'][0] != tags[2][0]);
    }
    assert(seq!['F'] != tags[0] && seq!['F'] != tags[1] && seq!['F'] != tags[2]) by {
        assert(seq!['F'].len() == 1);
        assert(seq!['F'][0] != tags[2][0]);
    }
}

/// Classifying four-field lines: `A,x,y,z` is an acceleration and
/// `F,x,y,z` a force, written `x`, `y`, `z`, for any comma-free fields.
pub proof fn lemma_classify_four_fields(
    x: Seq<char>,
    y: Seq<char>,
    z: Seq<char>,
    cmd: LineCommand,
)
    requires
        !x.contains(','),
        !y.contains(','),
        !z.contains(','),
    ensures
        classifies(seq!['A'] + seq![','] + x + seq![','] + y + seq![','] + z, cmd) ==> (
        cmd matches LineCommand::Accel(a, b, c) && a@ == x && b@ == y && c@ == z),
        classifies(seq!['F'] + seq![','] + x + seq![','] + y + seq![','] + z, cmd) ==> (
        cmd matches LineCommand::Force(a, b, c) && a@ == x && b@ == y && c@ == z),
{
    lemma_split_comma_free(x);
    lemma_split_comma_free(y);
    lemma_split_comma_free(z);
    let tags = seq![seq!['A'], seq!['F']];
    assert forall|k: int| 0 <= k < 2 implies split_commas(
        tags[k] + seq![','] + x + seq![','] + y + seq![','] + z,
    ) == seq![tags[k], x, y, z] by {
        let t = tags[k];
        assert(!t.contains(',')) by {
            if t.contains(',') {
                let j = choose|j: int| 0 <= j < t.len() && t[j] == ',';
            }
        }
        lemma_split_comma_free(t);
        let l1 = t + seq![','] + x;
        let l2 = l1 + seq![','] + y;
        lemma_split_concat(t, x);
        lemma_split_concat(l1, y);
        lemma_split_concat(l2, z);
        assert(seq![t] + seq![x] + seq![y] + seq![z] == seq![t, x, y, z]);
    }
    assert(split_commas(tags[0] + seq![','] + x + seq![','] + y + seq![','] + z) == seq![
        tags[0],
        x,
        y,
        z,
    ]);
    assert(split_commas(tags[1] + seq![','] + x + seq![','] + y + seq![','] + z) == seq![
        tags[1],
        x,
        y,
        z,
    ]);
    assert(tags[0] != tags[1]) by {
        assert(tags[0][0] != tags[1][0]);
    }
}

/// Splits `line` at every comma, as `str::split(',')` does.
pub fn split_fields(line: &str) -> (fields: Vec<Vec<char>>)
    ensures
        fields@.len() == split_commas(line@).len(),
        forall|i: int| 0 <= i < fields@.len() ==> #[trigger] fields@[i]@ == split_commas(line@)[i],
{
    broadcast use vstd::string::group_string_axioms;
    let ghost all = line@;
    let mut fields: Vec<Vec<char>> = Vec::new();
    let mut current: Vec<char> = Vec::new();
    for c in it: line.chars()
        invariant
            it.seq() == all,
            fields@.len() + 1 == split_commas(all.take(it.index() as int)).len(),
            forall|i: int|
                0 <= i < fields@.len() ==> #[trigger] fields@[i]@ == split_commas(
                    all.take(it.index() as int),
                )[i],
            current@ == split_commas(all.take(it.index() as int)).last(),
    {
        let ghost before = all.take(it.index() as int);
        proof {
            let after = all.take(it.index() as int + 1);
            assert(after.drop_last() == before);
            assert(after.last() == c);
            lemma_split_nonempty(before);
        }
        if c == ',' {
            let mut done: Vec<char> = Vec::new();
            std::mem::swap(&mut done, &mut current);
            fields.push(done);
        } else {
            current.push(c);
        }
    }
    proof {
        assert(all.take(all.len() as int) == all);
        lemma_split_nonempty(all);
    }
    fields.push(current);
    fields
}

/// Whether `c` is an ASCII decimal digit.
pub open spec fn is_digit(c: char) -> bool {
    '0' <= c && c <= '9'
}

/// Whether every character of `s` is an ASCII decimal digit.
pub open spec fn all_digits(s: Seq<char>) -> bool {
    forall|i: int| 0 <= i < s.len() ==> is_digit(#[trigger] s[i])
}

/// The value of a run of decimal digits, most significant first.
pub open spec fn digits_value(s: Seq<char>) -> nat
    decreases s.len(),
{
    if s.len() == 0 {
        0
    } else {
        digits_value(s.drop_last()) * 10 + ((s.last() as nat) - ('0' as nat)) as nat
    }
}

/// The integer that `s` writes in decimal, as Rust's integer `from_str`
/// reads it: an optional `+` or `-`, then one or more ASCII digits and
/// nothing else; `None` for any other text.
pub open spec fn decimal_value(s: Seq<char>) -> Option<int> {
    if s.len() > 0 && (s[0] == '+' || s[0] == '-') {
        let ds = s.drop_first();
        if ds.len() > 0 && all_digits(ds) {
            if s[0] == '-' {
                Some(-(digits_value(ds) as int))
            } else {
                Some(digits_value(ds) as int)
            }
        } else {
            None
        }
    } else if s.len() > 0 && all_digits(s) {
        Some(digits_value(s) as int)
    } else {
        None
    }
}

/// What `str::parse::<i32>` gives for `s`: its decimal value when that fits
/// in `i32`, else `None`.
pub open spec fn parsed_i32(s: Seq<char>) -> Option<i32> {
    match decimal_value(s) {
        Some(v) => if i32::MIN <= v <= i32::MAX {
            Some(v as i32)
        } else {
            None
        },
        None => None,
    }
}

/// The character of the decimal digit `d` (`0 <= d <= 9`): `'0'` for 0, up
/// to `'9'` for 9.
pub open spec fn digit_char(d: nat) -> char {
    ((d + 48) as u32) as char
}

/// The usual decimal writing of `n`: no sign, no leading zero (except `"0"`
/// itself), most significant digit first.
pub open spec fn decimal(n: nat) -> Seq<char>
    decreases n,
{
    if n < 10 {
        seq![digit_char(n)]
    } else {
        decimal(n / 10).push(digit_char(n % 10))
    }
}

/// Each of the ten characters `'0'` to `'9'` reads as its own digit value.
pub proof fn lemma_digit_chars(d: nat)
    requires
        d < 10,
    ensures
        is_digit(digit_char(d)),
        (digit_char(d) as nat) - ('0' as nat) == d,
        digit_char(d) != '+',
        digit_char(d) != '-',
{
    let x: u32 = (d + 48) as u32;
    assert(x == d + 48);
    assert((x as char) as nat == x);
}

/// The decimal writing of `n` is a run of digits whose value is `n`.
pub proof fn lemma_decimal_digits(n: nat)
    ensures
        decimal(n).len() > 0,
        all_digits(decimal(n)),
        digits_value(decimal(n)) == n,
        decimal(n)[0] != '+' && decimal(n)[0] != '-',
    decreases n,
{
    if n < 10 {
        lemma_digit_chars(n);
        let t = seq![digit_char(n)];
        assert(t.drop_last() =~= Seq::<char>::empty());
        assert(digits_value(Seq::<char>::empty()) == 0);
        assert(digits_value(t) == digits_value(t.drop_last()) * 10 + ((t.last() as nat) - ('0' as nat)) as nat);
    } else {
        lemma_decimal_digits(n / 10);
        lemma_digit_chars(n % 10);
        let s = decimal(n / 10);
        let t = s.push(digit_char(n % 10));
        assert(t.drop_last() == s);
        assert(t.last() == digit_char(n % 10));
        assert(digits_value(t) == digits_value(s) * 10 + ((t.last() as nat) - ('0' as nat)) as nat);
        assert(n == (n / 10) * 10 + n % 10);
        assert(t[0] == s[0]);
        assert forall|i: int| 0 <= i < t.len() implies is_digit(#[trigger] t[i]) by {
            if i < s.len() {
                assert(t[i] == s[i]);
            }
        }
    }
}

/// Reading decimals: the decimal writing of any `n` up to `i32::MAX` reads
/// as `n`, with or without a leading `+`, and with a leading `-` as `-n`;
/// `-2147483648` reads as `i32::MIN`. In particular each single digit
/// `'0'`..`'9'` reads as its value.
pub proof fn lemma_parse_decimal(n: nat)
    ensures
        n <= i32::MAX ==> parsed_i32(decimal(n)) == Some(n as i32),
        n <= i32::MAX ==> parsed_i32(seq!['+'] + decimal(n)) == Some(n as i32),
        n <= 0x8000_0000 ==> parsed_i32(seq!['-'] + decimal(n)) == Some((-(n as int)) as i32),
        n > i32::MAX ==> parsed_i32(decimal(n)) is None,
        n > 0x8000_0000 ==> parsed_i32(seq!['-'] + decimal(n)) is None,
{
    lemma_decimal_digits(n);
    let d = decimal(n);
    let plus = seq!['+'] + d;
    let minus = seq!['-'] + d;
    assert(plus.drop_first() == d);
    assert(minus.drop_first() == d);
    assert(plus[0] == '+');
    assert(minus[0] == '-');
}

/// Each single digit character reads as its value, and every other single
/// character is refused.
pub proof fn lemma_parse_single_char(c: char)
    ensures
        ('0' <= c && c <= '9') ==> parsed_i32(seq![c]) == Some(((c as int) - ('0' as int)) as i32),
        !('0' <= c && c <= '9') ==> parsed_i32(seq![c]) is None,
{
    let s = seq![c];
    assert(s.drop_last() =~= Seq::<char>::empty());
    if '0' <= c && c <= '9' {
        assert(all_digits(s));
        assert(digits_value(Seq::<char>::empty()) == 0);
        assert(digits_value(s) == digits_value(s.drop_last()) * 10 + ((s.last() as nat) - ('0' as nat)) as nat);
        assert(s[0] != '+' && s[0] != '-');
    } else {
        assert(!is_digit(s[0]));
    }
}

/// Any character other than `'0'`..`'9'`, apart from one leading `+` or
/// `-`, makes the text unreadable; so does a text with no digit.
pub proof fn lemma_parse_refuses_non_digits(s: Seq<char>, i: int)
    requires
        0 <= i < s.len(),
        !('0' <= s[i] && s[i] <= '9'),
        i > 0 || !(s[0] == '+' || s[0] == '-'),
    ensures
        parsed_i32(s) is None,
        parsed_i32(Seq::<char>::empty()) is None,
        parsed_i32(seq!['+']) is None,
        parsed_i32(seq!['-']) is None,
{
    if s[0] == '+' || s[0] == '-' {
        assert(s.drop_first()[i - 1] == s[i]);
        assert(!is_digit(s.drop_first()[i - 1]));
    } else {
        assert(!is_digit(s[i]));
    }
    assert(seq!['+'].drop_first().len() == 0);
    assert(seq!['-'].drop_first().len() == 0);
}

/// Appending a digit `c` to a decimal that reads as `v` gives one that
/// reads as `10 * v + digit`, as long as it stays in range.
pub proof fn lemma_parse_append_digit(s: Seq<char>, c: char)
    requires
        s.len() > 0,
        all_digits(s),
        '0' <= c && c <= '9',
    ensures
        decimal_value(s.push(c)) == Some(10 * digits_value(s) + ((c as int) - ('0' as int))),
{
    let t = s.push(c);
    assert(t.drop_last() == s);
    assert(t[0] == s[0]);
    assert forall|i: int| 0 <= i < t.len() implies is_digit(#[trigger] t[i]) by {
        if i < s.len() {
            assert(t[i] == s[i]);
        }
    }
}

/// Bound at which the digit accumulator stops growing; any value past it is
/// out of range for `i32` anyway.
const SATURATION: u64 = 0x1_0000_0000;

/// Reads a field as a decimal `i32`, with the rules of `str::parse::<i32>`.
pub fn parse_i32(field: &Vec<char>) -> (r: Option<i32>)
    ensures
        r == parsed_i32(field@),
{
    let ghost s = field@;
    let n = field.len();
    if n == 0 {
        return None;
    }
    let first = field[0];
    let negative = first == '-';
    let start: usize = if first == '+' || first == '-' { 1 } else { 0 };
    if start == n {
        return None;
    }
    let ghost ds = s.subrange(start as int, n as int);
    proof {
        if start == 1 {
            assert(ds == s.drop_first());
        } else {
            assert(ds == s);
        }
    }
    let mut acc: u64 = 0;
    let mut i: usize = start;
    while i < n
        invariant
            start <= i <= n,
            n == s.len(),
            n == field@.len(),
            s == field@,
            ds == s.subrange(start as int, n as int),
            n > 0,
            start == (if s[0] == '+' || s[0] == '-' { 1usize } else { 0usize }),
            negative == (s[0] == '-'),
            start == 1 ==> ds == s.drop_first(),
            start == 0 ==> ds == s,
            start < n,
            all_digits(s.subrange(start as int, i as int)),
            acc == if digits_value(s.subrange(start as int, i as int)) < SATURATION {
                digits_value(s.subrange(start as int, i as int))
            } else {
                SATURATION as nat
            },
        decreases n - i,
    {
        let c = field[i];
        let ghost prefix = s.subrange(start as int, i as int);
        let ghost next = s.subrange(start as int, i as int + 1);
        proof {
            assert(next.drop_last() == prefix);
            assert(next.last() == c);
        }
        if !('0' <= c && c <= '9') {
            proof {
                assert(ds[i - start] == c);
                assert(!is_digit(ds[i - start]));
                assert(!all_digits(ds));
            }
            return None;
        }
        let d: u64 = (c as u64) - ('0' as u64);
        let grown: u64 = acc * 10 + d;
        acc = if grown < SATURATION { grown } else { SATURATION };
        i = i + 1;
        proof {
            assert forall|j: int| 0 <= j < next.len() implies is_digit(#[trigger] next[j]) by {
                if j < prefix.len() {
                    assert(next[j] == prefix[j]);
                }
            }
        }
    }
    proof {
        assert(s.subrange(start as int, n as int) == ds);
    }
    if negative {
        if acc <= 0x8000_0000 {
            let v: i64 = 0 - (acc as i64);
            Some(v as i32)
        } else {
            None
        }
    } else {
        if acc <= 0x7fff_ffff {
            Some(acc as i32)
        } else {
            None
        }
    }
}

/// One line of the sensor pipe protocol, classified.
pub enum LineCommand {
    /// `RATE,<rate>`: the sensor's sampling rate, `None` when it is not a
    /// decimal `i32`.
    Rate(Option<i32>),
    /// `AVAIL,<available>`: the occupancy of the sensor's queue, `None` when
    /// it is not a decimal `i32`.
    Avail(Option<i32>),
    /// `T,<value>`: a temperature, as written.
    Thermo(Vec<char>),
    /// `A,<x>,<y>,<z>`: an acceleration, as written.
    Accel(Vec<char>, Vec<char>, Vec<char>),
    /// `F,<x>,<y>,<z>`: a force, as written.
    Force(Vec<char>, Vec<char>, Vec<char>),
    /// Any other line, or a known tag with the wrong number of fields.
    Ignored,
}

/// The tag of a rate line.
pub open spec fn rate_tag() -> Seq<char> {
    seq!['R', 'A', 'T', 'E']
}

/// The tag of an availability line.
pub open spec fn avail_tag() -> Seq<char> {
    seq!['A', 'V', 'A', 'I', 'L']
}

/// The tag of a temperature line.
pub open spec fn thermo_tag() -> Seq<char> {
    seq!['T']
}

/// The tag of an acceleration line.
pub open spec fn accel_tag() -> Seq<char> {
    seq!['A']
}

/// The tag of a force line.
pub open spec fn force_tag() -> Seq<char> {
    seq!['F']
}

/// Whether `cmd` is the classification of the line `line`: the first field
/// names the kind, which is taken only with its number of fields (two for
/// `RATE`, `AVAIL` and `T`, four for `A` and `F`).
pub open spec fn classifies(line: Seq<char>, cmd: LineCommand) -> bool {
    let f = split_commas(line);
    let rate = f[0] == rate_tag() && f.len() == 2;
    let avail = f[0] == avail_tag() && f.len() == 2;
    let thermo = f[0] == thermo_tag() && f.len() == 2;
    let accel = f[0] == accel_tag() && f.len() == 4;
    let force = f[0] == force_tag() && f.len() == 4;
    match cmd {
        LineCommand::Rate(v) => rate && v == parsed_i32(f[1]),
        LineCommand::Avail(v) => avail && v == parsed_i32(f[1]),
        LineCommand::Thermo(x) => thermo && x@ == f[1],
        LineCommand::Accel(x, y, z) => accel && x@ == f[1] && y@ == f[2] && z@ == f[3],
        LineCommand::Force(x, y, z) => force && x@ == f[1] && y@ == f[2] && z@ == f[3],
        LineCommand::Ignored => !rate && !avail && !thermo && !accel && !force,
    }
}

/// Whether `field` holds exactly the characters of `tag`.
fn field_is(field: &Vec<char>, tag: &[char]) -> (r: bool)
    ensures
        r == (field@ == tag@),
{
    if field.len() != tag.len() {
        return false;
    }
    let n = field.len();
    let mut i: usize = 0;
    while i < n
        invariant
            n == field@.len(),
            n == tag@.len(),
            i <= n,
            forall|j: int| 0 <= j < i ==> field@[j] == tag@[j],
        decreases n - i,
    {
        if field[i] != tag[i] {
            return false;
        }
        i = i + 1;
    }
    proof {
        assert(field@ =~= tag@);
    }
    true
}

/// Classifies one line of the sensor pipe protocol.
pub fn classify_line(line: &str) -> (cmd: LineCommand)
    ensures
        classifies(line@, cmd),
{
    let mut fields = split_fields(line);
    proof {
        lemma_split_nonempty(line@);
    }
    let ghost f = split_commas(line@);
    let n = fields.len();
    let is_rate = field_is(&fields[0], &['R', 'A', 'T', 'E']);
    let is_avail = field_is(&fields[0], &['A', 'V', 'A', 'I', 'L']);
    let is_thermo = field_is(&fields[0], &['T']);
    let is_accel = field_is(&fields[0], &['A']);
    let is_force = field_is(&fields[0], &['F']);
    proof {
        assert(fields@[0]@ == f[0]);
        assert(['R', 'A', 'T', 'E']@ == rate_tag());
        assert(['A', 'V', 'A', 'I', 'L']@ == avail_tag());
        assert(['T']@ == thermo_tag());
        assert(['A']@ == accel_tag());
        assert(['F']@ == force_tag());
    }
    if n == 2 && (is_rate || is_avail || is_thermo) {
        let second = fields.pop().unwrap();
        proof {
            assert(second@ == f[1]);
        }
        if is_rate {
            LineCommand::Rate(parse_i32(&second))
        } else if is_avail {
            LineCommand::Avail(parse_i32(&second))
        } else {
            LineCommand::Thermo(second)
        }
    } else if n == 4 && (is_accel || is_force) {
        let z = fields.pop().unwrap();
        let y = fields.pop().unwrap();
        let x = fields.pop().unwrap();
        proof {
            assert(x@ == f[1]);
            assert(y@ == f[2]);
            assert(z@ == f[3]);
        }
        if is_accel {
            LineCommand::Accel(x, y, z)
        } else {
            LineCommand::Force(x, y, z)
        }
    } else {
        LineCommand::Ignored
    }
}

} // verus!
