//! Conversion between the compact version code stored in a file header and
//! the dotted version that people read, and parsing of the header itself.
use vstd::prelude::*;
use vstd::string::StringExecFns;
use crate::text::{
    all_digits, chars_all_digits, is_digit, chars_of, copy_range, digit_char, digit_value, ends_with,
    matches_at, push_all, starts_with, string_from_chars,
};

verus! {

/// Codes and versions whose first character is `1` or `2` follow the legacy
/// scheme: the major digit followed directly by the minor number.
pub open spec fn is_legacy(v: Seq<char>) -> bool {
    v.len() > 0 && (v[0] == '1' || v[0] == '2')
}

/// `s` with every `.` removed.
pub open spec fn without_dots(s: Seq<char>) -> Seq<char>
    decreases s.len(),
{
    if s.len() == 0 {
        s
    } else {
        let r = without_dots(s.drop_last());
        if s.last() == '.' {
            r
        } else {
            r.push(s.last())
        }
    }
}

/// Index of the first `.` in `s`, or `s.len()` when there is none.
pub open spec fn first_dot(s: Seq<char>) -> int
    decreases s.len(),
{
    if s.len() == 0 {
        0
    } else if s[0] == '.' {
        0
    } else {
        1 + first_dot(s.drop_first())
    }
}

/// What precedes the first dot of a dotted version.
pub open spec fn major_part(v: Seq<char>) -> Seq<char> {
    v.take(first_dot(v))
}

/// What follows the first dot of a dotted version (empty without a dot).
pub open spec fn after_first_dot(v: Seq<char>) -> Seq<char> {
    if first_dot(v) < v.len() {
        v.skip(first_dot(v) + 1)
    } else {
        Seq::empty()
    }
}

/// The segment between the first and the second dot of a dotted version.
pub open spec fn minor_part(v: Seq<char>) -> Seq<char> {
    let rest = after_first_dot(v);
    rest.take(first_dot(rest))
}

/// `m` padded on the left with zeros to at least two characters.
pub open spec fn pad_two(m: Seq<char>) -> Seq<char> {
    if m.len() == 0 {
        seq!['0', '0']
    } else if m.len() == 1 {
        seq!['0'] + m
    } else {
        m
    }
}

/// The compact code of a dotted version. Legacy versions drop their dots;
/// later ones keep the major part and a two-digit minor part, and drop any
/// patch part.
pub open spec fn raw_of_canonical(v: Seq<char>) -> Seq<char> {
    if is_legacy(v) {
        without_dots(v)
    } else {
        major_part(v) + pad_two(minor_part(v))
    }
}

/// A compact version code: at least two characters, all decimal digits.
pub open spec fn is_raw_code(raw: Seq<char>) -> bool {
    raw.len() >= 2 && all_digits(raw)
}

/// The minor number of a non-legacy code: its second and third digits.
pub open spec fn minor_value(raw: Seq<char>) -> int {
    if raw.len() >= 3 {
        digit_value(raw[1]) * 10 + digit_value(raw[2])
    } else {
        digit_value(raw[1])
    }
}

/// The decimal digits of `n`, for `0 <= n < 100`, without leading zero.
pub open spec fn decimal(n: int) -> Seq<char> {
    if n < 10 {
        seq![digit_char(n)]
    } else {
        seq![digit_char(n / 10), digit_char(n % 10)]
    }
}

/// The dotted version of a compact code. A legacy code puts a dot after its
/// first digit; a later one renders `MAJOR.MINOR`, with `.PATCH` when digits
/// follow the two-digit minor.
pub open spec fn canonical_of_raw(raw: Seq<char>) -> Seq<char> {
    if is_legacy(raw) {
        seq![raw[0], '.'] + raw.skip(1)
    } else if raw.len() > 3 {
        seq![raw[0], '.'] + decimal(minor_value(raw)) + seq!['.'] + raw.skip(3)
    } else {
        seq![raw[0], '.'] + decimal(minor_value(raw))
    }
}

proof fn lemma_first_dot(s: Seq<char>, i: int)
    requires
        0 <= i <= s.len(),
        forall|j: int| 0 <= j < i ==> s[j] != '.',
        i == s.len() || s[i] == '.',
    ensures
        first_dot(s) == i,
    decreases i,
{
    if i > 0 {
        lemma_first_dot(s.drop_first(), i - 1);
    }
}

/// Index of the first `.` in `c` at or after `from`, or `c.len()`.
fn find_dot(c: &Vec<char>, from: usize) -> (r: usize)
    requires
        from <= c@.len(),
    ensures
        r == from + first_dot(c@.skip(from as int)),
        from <= r <= c@.len(),
{
    let mut i: usize = from;
    while i < c.len() && c[i] != '.'
        invariant
            from <= i <= c@.len(),
            forall|j: int| from <= j < i ==> c@[j] != '.',
        decreases c@.len() - i,
    {
        i = i + 1;
    }
    proof {
        lemma_first_dot(c@.skip(from as int), i - from);
    }
    i
}

fn raw_chars(v: &Vec<char>) -> (r: Vec<char>)
    ensures
        r@ == raw_of_canonical(v@),
{
    if v.len() > 0 && (v[0] == '1' || v[0] == '2') {
        let mut r: Vec<char> = Vec::new();
        let mut i: usize = 0;
        while i < v.len()
            invariant
                i <= v@.len(),
                r@ == without_dots(v@.take(i as int)),
            decreases v@.len() - i,
        {
            assert(v@.take(i + 1).drop_last() =~= v@.take(i as int));
            if v[i] != '.' {
                r.push(v[i]);
            }
            i = i + 1;
        }
        assert(v@.take(v@.len() as int) =~= v@);
        r
    } else {
        assert(v@.skip(0) =~= v@);
        let d = find_dot(v, 0);
        let mut r = copy_range(v, 0, d);
        let minor = if d < v.len() {
            let e = find_dot(v, d + 1);
            assert(after_first_dot(v@) =~= v@.skip(d + 1));
            assert(minor_part(v@) =~= v@.subrange(d + 1, e as int));
            copy_range(v, d + 1, e)
        } else {
            assert(minor_part(v@) =~= Seq::<char>::empty());
            Vec::new()
        };
        if minor.len() == 0 {
            r.push('0');
            r.push('0');
        } else if minor.len() == 1 {
            r.push('0');
            r.push(minor[0]);
            assert(pad_two(minor@) =~= seq!['0', minor@[0]]);
        } else {
            push_all(&mut r, &minor);
        }
        assert(r@ =~= major_part(v@) + pad_two(minor_part(v@)));
        r
    }
}

fn canonical_chars(raw: &Vec<char>) -> (r: Vec<char>)
    requires
        is_raw_code(raw@),
    ensures
        r@ == canonical_of_raw(raw@),
{
    let mut r: Vec<char> = Vec::new();
    r.push(raw[0]);
    r.push('.');
    if raw[0] == '1' || raw[0] == '2' {
        let tail = copy_range(raw, 1, raw.len());
        push_all(&mut r, &tail);
        assert(r@ =~= canonical_of_raw(raw@));
    } else {
        assert(all_digits(raw@) ==> '0' <= raw@[1] <= '9');
        let d1: u8 = (raw[1] as u32 - 48) as u8;
        let n: u8 = if raw.len() >= 3 {
            assert(all_digits(raw@) ==> '0' <= raw@[2] <= '9');
            let d2: u8 = (raw[2] as u32 - 48) as u8;
            d1 * 10 + d2
        } else {
            d1
        };
        assert(n as int == minor_value(raw@));
        if n < 10 {
            r.push((n + 48) as char);
        } else {
            r.push((n / 10 + 48) as char);
            r.push((n % 10 + 48) as char);
        }
        assert(r@ =~= seq![raw@[0], '.'] + decimal(minor_value(raw@)));
        if raw.len() > 3 {
            r.push('.');
            let tail = copy_range(raw, 3, raw.len());
            push_all(&mut r, &tail);
        }
        assert(r@ =~= canonical_of_raw(raw@));
    }
    r
}

/// The version information found in a file header.
#[derive(Clone, Debug, Default)]
pub struct BlenderVersion {
    /// The compact code as it stands in the header, such as `"293"`.
    pub raw_version_string: String,
    /// 64 for the hyphen variant of the header, 32 otherwise.
    pub bit: u8,
    /// The dotted version, such as `"2.93"`.
    pub version: String,
}

impl BlenderVersion {
    /// The compact code of a dotted version, the form in which two versions
    /// are compared.
    pub fn to_raw_version(human_readable_version: &str) -> (r: String)
        ensures
            r@ == raw_of_canonical(human_readable_version@),
    {
        let v = chars_of(human_readable_version);
        let r = raw_chars(&v);
        string_from_chars(&r)
    }

    /// The dotted version of a compact code.
    pub fn from_raw_version(raw_version: &str) -> (r: String)
        requires
            is_raw_code(raw_version@),
        ensures
            r@ == canonical_of_raw(raw_version@),
    {
        let raw = chars_of(raw_version);
        let r = canonical_chars(&raw);
        string_from_chars(&r)
    }
}

/// A header that does not have the expected framing, or holds no version code.
#[derive(Clone, Debug, Default)]
pub struct InvalidVersionHeader {
    /// The header text as it was given.
    pub content: String,
}

impl InvalidVersionHeader {
    /// A one-line description for diagnostics.
    pub fn message(&self) -> (r: String)
        ensures
            r@ == "invalid version header "@ + self.content@,
    {
        let mut m = String::from_str("invalid version header ");
        m.append(self.content.as_str());
        m
    }
}

/// The marker that opens every header.
pub open spec fn magic_word() -> Seq<char> {
    seq!['B', 'L', 'E', 'N', 'D', 'E', 'R']
}

/// The marker that closes the header region.
pub open spec fn block_word() -> Seq<char> {
    seq!['R', 'E', 'N', 'D']
}

/// `s` without the trailing filler (`H` or space) of older headers.
pub open spec fn trim_filler(s: Seq<char>) -> Seq<char>
    decreases s.len(),
{
    if s.len() > 0 && (s.last() == 'H' || s.last() == ' ') {
        trim_filler(s.drop_last())
    } else {
        s
    }
}

/// Text that opens with `BLENDER`, closes with `REND`, with room for both.
pub open spec fn framed(t: Seq<char>) -> bool {
    t.len() >= 11 && starts_with(t, magic_word()) && ends_with(t, block_word())
}

/// `b` without a leading pointer-size marker (`-` or `_`) and then without a
/// leading byte-order marker (`v` or `V`).
pub open spec fn strip_markers(b: Seq<char>) -> Seq<char> {
    let b1 = if b.len() > 0 && (b[0] == '-' || b[0] == '_') {
        b.drop_first()
    } else {
        b
    };
    if b1.len() > 0 && (b1[0] == 'v' || b1[0] == 'V') {
        b1.drop_first()
    } else {
        b1
    }
}

/// The compact code held by a header, when the header is well framed and the
/// code between the markers is a valid one.
pub open spec fn header_raw_code(h: Seq<char>) -> Option<Seq<char>> {
    let t = trim_filler(h);
    if framed(t) && is_raw_code(strip_markers(t.subrange(7, t.len() - 4))) {
        Some(strip_markers(t.subrange(7, t.len() - 4)))
    } else {
        None
    }
}

/// 64 for a header that opens with `BLENDER-`, 32 otherwise.
pub open spec fn header_bit_width(h: Seq<char>) -> u8 {
    if starts_with(trim_filler(h), magic_word().push('-')) {
        64
    } else {
        32
    }
}

/// What a header parses to: its code, bit width and dotted version, or
/// nothing when it is invalid.
pub open spec fn header_outcome(r: Result<BlenderVersion, InvalidVersionHeader>, h: Seq<char>) -> bool {
    match r {
        Ok(v) => {
            &&& header_raw_code(h) == Some(v.raw_version_string@)
            &&& v.bit == header_bit_width(h)
            &&& v.version@ == canonical_of_raw(v.raw_version_string@)
        },
        Err(e) => header_raw_code(h) is None && e.content@ == h,
    }
}

/// Length of `c` once the trailing filler is removed.
fn trimmed_len(c: &Vec<char>) -> (r: usize)
    ensures
        r <= c@.len(),
        c@.take(r as int) == trim_filler(c@),
{
    let mut end: usize = c.len();
    assert(c@.take(end as int) =~= c@);
    while end > 0 && (c[end - 1] == 'H' || c[end - 1] == ' ')
        invariant
            end <= c@.len(),
            trim_filler(c@.take(end as int)) == trim_filler(c@),
        decreases end,
    {
        assert(c@.take(end as int).drop_last() =~= c@.take(end - 1));
        end = end - 1;
    }
    end
}

/// Parses the header text: the dotted version, the compact code and the bit
/// width that it announces.
pub fn get_version(version_header: &str) -> (r: Result<BlenderVersion, InvalidVersionHeader>)
    ensures
        header_outcome(r, version_header@),
{
    let c = chars_of(version_header);
    let end = trimmed_len(&c);
    let ghost t = c@.take(end as int);
    let prefix: Vec<char> = vec!['B', 'L', 'E', 'N', 'D', 'E', 'R'];
    let suffix: Vec<char> = vec!['R', 'E', 'N', 'D'];
    if end < 11 || !matches_at(&c, 0, &prefix) || !matches_at(&c, end - 4, &suffix) {
        proof {
            if end >= 11 {
                assert(t.take(7) =~= c@.subrange(0, 7));
                assert(t.skip(t.len() - 4) =~= c@.subrange(end - 4, end as int));
            }
        }
        return Err(InvalidVersionHeader { content: version_header.to_owned() });
    }
    assert(t.take(7) =~= c@.subrange(0, 7));
    assert(t.skip(t.len() - 4) =~= c@.subrange(end - 4, end as int));
    let hi: usize = end - 4;
    let mut lo: usize = 7;
    let ghost b = t.subrange(7, t.len() - 4);
    assert(b =~= c@.subrange(7, hi as int));
    if lo < hi && (c[lo] == '-' || c[lo] == '_') {
        lo = lo + 1;
    }
    let ghost b1 = c@.subrange(lo as int, hi as int);
    assert(b1 =~= (if b.len() > 0 && (b[0] == '-' || b[0] == '_') { b.drop_first() } else { b }));
    if lo < hi && (c[lo] == 'v' || c[lo] == 'V') {
        lo = lo + 1;
    }
    let raw = copy_range(&c, lo, hi);
    assert(raw@ =~= strip_markers(b));
    if raw.len() < 2 || !chars_all_digits(&raw) {
        return Err(InvalidVersionHeader { content: version_header.to_owned() });
    }
    let bit: u8 = if c[7] == '-' { 64 } else { 32 };
    assert(t.take(8) =~= t.take(7).push(t[7]));
    proof {
        if c@[7] == '-' {
            assert(t.take(8) =~= magic_word().push('-'));
        } else {
            assert(t.take(8)[7] != magic_word().push('-')[7]);
        }
    }
    let version = canonical_chars(&raw);
    Ok(BlenderVersion {
        raw_version_string: string_from_chars(&raw),
        bit,
        version: string_from_chars(&version),
    })
}

/// A later-era dotted version: a major digit from `3` to `9`, a dot, and a
/// minor number of one or two digits, optionally followed by a patch part.
pub open spec fn is_modern_canonical(v: Seq<char>) -> bool {
    &&& v.len() >= 3
    &&& '3' <= v[0] <= '9'
    &&& v[1] == '.'
    &&& 1 <= minor_part(v).len() <= 2
    &&& all_digits(minor_part(v))
}

proof fn lemma_digit_char_value(c: char)
    requires
        is_digit(c),
    ensures
        digit_char(digit_value(c)) == c,
{
}

proof fn lemma_split_two_digits(a: int, b: int)
    requires
        0 <= a < 10,
        0 <= b < 10,
    ensures
        (a * 10 + b) / 10 == a,
        (a * 10 + b) % 10 == b,
{
    assert((a * 10 + b) / 10 == a && (a * 10 + b) % 10 == b) by (nonlinear_arith)
        requires
            0 <= a < 10,
            0 <= b < 10,
    ;
}

/// The code of a two- or three-character later-era version `[d, '.'] + m`.
proof fn lemma_raw_of_short(d: char, m: Seq<char>)
    requires
        '3' <= d <= '9',
        1 <= m.len() <= 2,
        all_digits(m),
    ensures
        raw_of_canonical(seq![d, '.'] + m) == seq![d] + pad_two(m),
{
    let v = seq![d, '.'] + m;
    lemma_first_dot(v, 1);
    assert(v.skip(2) =~= m);
    assert(m[0] != '.');
    if m.len() == 2 {
        assert(m[1] != '.');
    }
    lemma_first_dot(m, m.len() as int);
    assert(m.take(m.len() as int) =~= m);
    assert(v.take(1) =~= seq![d]);
}

/// Encoding a later-era version, reading the code back as a dotted version
/// and encoding that again gives the same code: the patch part is the only
/// thing that the encoding loses.
pub proof fn lemma_raw_round_trip(v: Seq<char>)
    requires
        is_modern_canonical(v),
    ensures
        is_raw_code(raw_of_canonical(v)),
        raw_of_canonical(canonical_of_raw(raw_of_canonical(v))) == raw_of_canonical(v),
{
    let m = minor_part(v);
    lemma_first_dot(v, 1);
    assert(v.take(1) =~= seq![v[0]]);
    let raw = raw_of_canonical(v);
    assert(raw == seq![v[0]] + pad_two(m));
    assert(is_digit(m[0]));
    let n = minor_value(raw);
    if m.len() == 1 {
        assert(raw =~= seq![v[0], '0', m[0]]);
        lemma_digit_char_value(m[0]);
        assert(canonical_of_raw(raw) =~= seq![v[0], '.'] + seq![m[0]]);
        lemma_raw_of_short(v[0], seq![m[0]]);
        assert(seq![v[0]] + pad_two(seq![m[0]]) =~= raw);
    } else {
        assert(is_digit(m[1]));
        assert(raw =~= seq![v[0], m[0], m[1]]);
        lemma_digit_char_value(m[1]);
        if m[0] == '0' {
            assert(canonical_of_raw(raw) =~= seq![v[0], '.'] + seq![m[1]]);
            lemma_raw_of_short(v[0], seq![m[1]]);
            assert(seq![v[0]] + pad_two(seq![m[1]]) =~= raw);
        } else {
            lemma_digit_char_value(m[0]);
            lemma_split_two_digits(digit_value(m[0]), digit_value(m[1]));
            assert(canonical_of_raw(raw) =~= seq![v[0], '.'] + m);
            lemma_raw_of_short(v[0], m);
        }
    }
}

} // verus!
