//! Go version identifiers: the `major.minor.patch` triple, its parser,
//! its canonical spellings and its order.
use crate::text::{
    chars_of, is_ws, lemma_split_on_nonempty, split_chars, split_on, trim, trim_bounds,
};
use vstd::prelude::*;

verus! {

/// Relies on `String::push`: the character is appended at the end.
pub assume_specification[ String::push ](s: &mut String, ch: char)
    ensures
        final(s)@ == old(s)@.push(ch),
;

/// A Go release number.
#[derive(Clone, Copy, Debug, PartialEq, Eq, Structural, PartialOrd, Ord, Hash)]
pub struct GoVersion {
    pub major: u32,
    pub minor: u32,
    pub patch: u32,
}

/// Why a text is not a version.
#[derive(Clone, Debug, PartialEq, Eq)]
pub enum ParseError {
    /// Not exactly three dot-separated segments; holds the whole input.
    Format(String),
    /// The first segment is not a number; holds the segment.
    Major(String),
    /// The second segment is not a number; holds the segment.
    Minor(String),
    /// The third segment is not a number; holds the segment.
    Patch(String),
}

/// The text without its leading `v`s.
pub open spec fn strip_v(s: Seq<char>) -> Seq<char>
    decreases s.len(),
{
    if s.len() > 0 && s[0] == 'v' {
        strip_v(s.drop_first())
    } else {
        s
    }
}

/// The text without its leading `go`s.
pub open spec fn strip_go(s: Seq<char>) -> Seq<char>
    decreases s.len(),
{
    if s.len() >= 2 && s[0] == 'g' && s[1] == 'o' {
        strip_go(s.subrange(2, s.len() as int))
    } else {
        s
    }
}

/// The text with surrounding whitespace, then every leading `v`, then every
/// leading `go` removed.
pub open spec fn cleaned(s: Seq<char>) -> Seq<char> {
    strip_go(strip_v(trim(s)))
}

/// The dot-separated segments of a version text.
pub open spec fn segments(s: Seq<char>) -> Seq<Seq<char>> {
    split_on(cleaned(s), '.')
}

pub open spec fn is_digit(c: char) -> bool {
    '0' <= c && c <= '9'
}

pub open spec fn digit_of(c: char) -> nat {
    ((c as u32) - ('0' as u32)) as nat
}

pub open spec fn all_digits(s: Seq<char>) -> bool {
    forall|i: int| 0 <= i < s.len() ==> #[trigger] is_digit(s[i])
}

/// The number that a string of decimal digits denotes.
pub open spec fn digits_value(s: Seq<char>) -> nat
    decreases s.len(),
{
    if s.len() == 0 {
        0
    } else {
        digits_value(s.drop_last()) * 10 + digit_of(s.last())
    }
}

/// The digits of a number text: an optional leading `+` dropped.
pub open spec fn unsigned_part(s: Seq<char>) -> Seq<char> {
    if s.len() > 0 && s[0] == '+' {
        s.drop_first()
    } else {
        s
    }
}

/// A `u32` written in decimal, with an optional leading `+`.
pub open spec fn number_of(s: Seq<char>) -> Option<u32> {
    let d = unsigned_part(s);
    if d.len() > 0 && all_digits(d) && digits_value(d) <= u32::MAX {
        Some(digits_value(d) as u32)
    } else {
        None
    }
}

/// The version a text denotes, if it denotes one.
pub open spec fn parsed(s: Seq<char>) -> Option<GoVersion> {
    let g = segments(s);
    if g.len() == 3 && number_of(g[0]) is Some && number_of(g[1]) is Some && number_of(
        g[2],
    ) is Some {
        Some(
            GoVersion {
                major: number_of(g[0])->Some_0,
                minor: number_of(g[1])->Some_0,
                patch: number_of(g[2])->Some_0,
            },
        )
    } else {
        None
    }
}

pub open spec fn digit_char(d: nat) -> char {
    seq!['0', '1', '2', '3', '4', '5', '6', '7', '8', '9'][d as int]
}

/// A number in decimal, without sign or leading zeros.
pub open spec fn decimal(n: nat) -> Seq<char>
    decreases n,
{
    if n < 10 {
        seq![digit_char(n)]
    } else {
        decimal(n / 10).push(digit_char(n % 10))
    }
}

/// `major.minor.patch` in decimal.
pub open spec fn dir_name(v: GoVersion) -> Seq<char> {
    decimal(v.major as nat) + seq!['.'] + decimal(v.minor as nat) + seq!['.'] + decimal(
        v.patch as nat,
    )
}

/// `go` followed by the directory name.
pub open spec fn download_name(v: GoVersion) -> Seq<char> {
    seq!['g', 'o'] + dir_name(v)
}

/// Strict lexicographic order on (major, minor, patch).
pub open spec fn version_lt(a: GoVersion, b: GoVersion) -> bool {
    a.major < b.major || (a.major == b.major && (a.minor < b.minor || (a.minor == b.minor
        && a.patch < b.patch)))
}

pub open spec fn version_le(a: GoVersion, b: GoVersion) -> bool {
    version_lt(a, b) || a == b
}

fn digit_char_exec(d: u32) -> (c: char)
    requires
        d < 10,
    ensures
        c == digit_char(d as nat),
{
    match d {
        0 => '0',
        1 => '1',
        2 => '2',
        3 => '3',
        4 => '4',
        5 => '5',
        6 => '6',
        7 => '7',
        8 => '8',
        _ => '9',
    }
}

/// Appends `n` in decimal to `out`.
pub fn push_decimal(out: &mut String, n: u32)
    ensures
        final(out)@ == old(out)@ + decimal(n as nat),
    decreases n,
{
    let ghost start = out@;
    if n >= 10 {
        push_decimal(out, n / 10);
    }
    out.push(digit_char_exec(n % 10));
    assert(out@ =~= start + decimal(n as nat));
}

/// Reads an unsigned decimal number, as `str::parse::<u32>` does.
fn number_from(seg: &Vec<char>) -> (r: Option<u32>)
    ensures
        r == number_of(seg@),
{
    let n = seg.len();
    let mut i: usize = 0;
    if n > 0 && seg[0] == '+' {
        i = 1;
    }
    let start = i;
    let ghost d = unsigned_part(seg@);
    assert(d =~= seg@.subrange(start as int, n as int));
    if i == n {
        return None;
    }
    let mut acc: u32 = 0;
    while i < n
        invariant
            n == seg@.len(),
            start <= i <= n,
            start < n,
            d == seg@.subrange(start as int, n as int),
            d == unsigned_part(seg@),
            all_digits(d.subrange(0, i - start)),
            acc as nat == digits_value(d.subrange(0, i - start)),
        decreases n - i,
    {
        let c = seg[i];
        if !('0' <= c && c <= '9') {
            assert(d[i - start] == c);
            assert(!is_digit(d[i - start]));
            return None;
        }
        let dg = (c as u32) - ('0' as u32);
        let wide = (acc as u64) * 10 + (dg as u64);
        let ghost pre = d.subrange(0, i - start);
        let ghost nxt = d.subrange(0, i + 1 - start);
        assert(nxt.drop_last() =~= pre);
        assert(nxt.last() == c);
        if wide > 4294967295u64 {
            proof {
                assert(all_digits(nxt)) by {
                    assert forall|j: int| 0 <= j < nxt.len() implies #[trigger] is_digit(
                        nxt[j],
                    ) by {
                        if j < nxt.len() - 1 {
                            assert(is_digit(pre[j]));
                        }
                    }
                }
                assert(digits_value(nxt) == digits_value(pre) * 10 + digit_of(c));
                assert(digits_value(nxt) > u32::MAX);
                lemma_digits_value_prefix(d, i + 1 - start);
            }
            return None;
        }
        acc = wide as u32;
        i += 1;
    }
    assert(d.subrange(0, n - start) =~= d);
    Some(acc)
}

/// A longer digit string is worth at least as much as its prefix.
proof fn lemma_digits_value_prefix(d: Seq<char>, k: int)
    requires
        0 <= k <= d.len(),
    ensures
        all_digits(d) ==> digits_value(d) >= digits_value(d.subrange(0, k)),
    decreases d.len(),
{
    if k < d.len() {
        lemma_digits_value_prefix(d.drop_last(), k);
        assert(d.drop_last().subrange(0, k) =~= d.subrange(0, k));
        if all_digits(d) {
            assert(all_digits(d.drop_last())) by {
                assert forall|i: int| 0 <= i < d.drop_last().len() implies #[trigger] is_digit(
                    d.drop_last()[i],
                ) by {
                    assert(is_digit(d[i]));
                }
            }
        }
    } else {
        assert(d.subrange(0, k) =~= d);
    }
}

/// A string holding exactly the given characters.
pub fn string_from(cs: &Vec<char>) -> (r: String)
    ensures
        r@ == cs@,
{
    let mut r = String::new();
    let mut i: usize = 0;
    while i < cs.len()
        invariant
            i <= cs@.len(),
            r@ == cs@.subrange(0, i as int),
        decreases cs@.len() - i,
    {
        r.push(cs[i]);
        i += 1;
        assert(r@ =~= cs@.subrange(0, i as int));
    }
    assert(r@ =~= cs@);
    r
}

impl ParseError {
    /// A sentence for the user.
    pub fn describe(&self) -> (r: String)
        ensures
            r@ == match self {
                ParseError::Format(t) => "Invalid version format: "@ + t@
                    + ". Expected format: 1.21.5"@,
                ParseError::Major(t) => "Invalid major version: "@ + t@,
                ParseError::Minor(t) => "Invalid minor version: "@ + t@,
                ParseError::Patch(t) => "Invalid patch version: "@ + t@,
            },
    {
        match self {
            ParseError::Format(t) => {
                let mut r = String::from_str("Invalid version format: ");
                r.append(t.as_str());
                r.append(". Expected format: 1.21.5");
                r
            },
            ParseError::Major(t) => String::from_str("Invalid major version: ").concat(t.as_str()),
            ParseError::Minor(t) => String::from_str("Invalid minor version: ").concat(t.as_str()),
            ParseError::Patch(t) => String::from_str("Invalid patch version: ").concat(t.as_str()),
        }
    }
}

impl GoVersion {
    pub fn new(major: u32, minor: u32, patch: u32) -> (r: Self)
        ensures
            r == (GoVersion { major, minor, patch }),
    {
        GoVersion { major, minor, patch }
    }

    /// Reads `1.21.5`, `go1.21.5` or `v1.21.5`: surrounding whitespace, then
    /// every leading `v`, then every leading `go` are dropped, and exactly three
    /// dot-separated `u32` segments must remain.
    pub fn parse(version_str: &str) -> (r: Result<GoVersion, ParseError>)
        ensures
            r is Ok <==> parsed(version_str@) is Some,
            r is Ok ==> r->Ok_0 == parsed(version_str@)->Some_0,
            match r {
                Ok(_) => true,
                Err(ParseError::Format(t)) => segments(version_str@).len() != 3 && t@
                    == version_str@,
                Err(ParseError::Major(t)) => segments(version_str@).len() == 3 && number_of(
                    segments(version_str@)[0],
                ) is None && t@ == segments(version_str@)[0],
                Err(ParseError::Minor(t)) => segments(version_str@).len() == 3 && number_of(
                    segments(version_str@)[0],
                ) is Some && number_of(segments(version_str@)[1]) is None && t@ == segments(
                    version_str@,
                )[1],
                Err(ParseError::Patch(t)) => segments(version_str@).len() == 3 && number_of(
                    segments(version_str@)[0],
                ) is Some && number_of(segments(version_str@)[1]) is Some && number_of(
                    segments(version_str@)[2],
                ) is None && t@ == segments(version_str@)[2],
            },
    {
        let s = chars_of(version_str);
        let (lo, hi) = trim_bounds(&s);
        let mut i: usize = lo;
        while i < hi && s[i] == 'v'
            invariant
                lo <= i <= hi <= s@.len(),
                strip_v(trim(s@)) == strip_v(s@.subrange(i as int, hi as int)),
            decreases hi - i,
        {
            assert(s@.subrange(i as int, hi as int).drop_first() =~= s@.subrange(
                i + 1,
                hi as int,
            ));
            i += 1;
        }
        assert(strip_v(s@.subrange(i as int, hi as int)) == s@.subrange(i as int, hi as int));
        while hi - i >= 2 && s[i] == 'g' && s[i + 1] == 'o'
            invariant
                lo <= i <= hi <= s@.len(),
                cleaned(s@) == strip_go(s@.subrange(i as int, hi as int)),
            decreases hi - i,
        {
            assert(s@.subrange(i as int, hi as int).subrange(2, hi - i) =~= s@.subrange(
                i + 2,
                hi as int,
            ));
            i += 2;
        }
        assert(strip_go(s@.subrange(i as int, hi as int)) == s@.subrange(i as int, hi as int));
        let parts = split_chars(&s, i, hi, '.');
        let ghost g = segments(version_str@);
        assert(g == split_on(s@.subrange(i as int, hi as int), '.'));
        if parts.len() != 3 {
            return Err(ParseError::Format(String::from_str(version_str)));
        }
        assert(parts@[0]@ == g[0]);
        assert(parts@[1]@ == g[1]);
        assert(parts@[2]@ == g[2]);
        let major = match number_from(&parts[0]) {
            Some(x) => x,
            None => {
                return Err(ParseError::Major(string_from(&parts[0])));
            },
        };
        let minor = match number_from(&parts[1]) {
            Some(x) => x,
            None => {
                return Err(ParseError::Minor(string_from(&parts[1])));
            },
        };
        let patch = match number_from(&parts[2]) {
            Some(x) => x,
            None => {
                return Err(ParseError::Patch(string_from(&parts[2])));
            },
        };
        Ok(GoVersion { major, minor, patch })
    }

    /// `go1.21.5`: the name Go's download page gives the release.
    pub fn to_download_string(&self) -> (r: String)
        ensures
            r@ == download_name(*self),
    {
        let mut r = String::new();
        r.push('g');
        r.push('o');
        let ghost pre = r@;
        let d = self.to_dir_name();
        r.append(d.as_str());
        assert(pre =~= seq!['g', 'o']);
        r
    }

    /// `1.21.5`: the name of the version's directory in the registry.
    pub fn to_dir_name(&self) -> (r: String)
        ensures
            r@ == dir_name(*self),
    {
        let mut r = String::new();
        push_decimal(&mut r, self.major);
        r.push('.');
        push_decimal(&mut r, self.minor);
        r.push('.');
        push_decimal(&mut r, self.patch);
        assert(r@ =~= dir_name(*self));
        r
    }

    /// Whether `self` comes strictly before `other`.
    pub fn is_older_than(&self, other: &GoVersion) -> (r: bool)
        ensures
            r == version_lt(*self, *other),
    {
        self.major < other.major || (self.major == other.major && (self.minor < other.minor || (
        self.minor == other.minor && self.patch < other.patch)))
    }

    /// Field-wise comparison, major first.
    pub fn compare(&self, other: &GoVersion) -> (r: std::cmp::Ordering)
        ensures
            r == std::cmp::Ordering::Less <==> version_lt(*self, *other),
            r == std::cmp::Ordering::Equal <==> *self == *other,
            r == std::cmp::Ordering::Greater <==> version_lt(*other, *self),
    {
        if self.is_older_than(other) {
            std::cmp::Ordering::Less
        } else if other.is_older_than(self) {
            std::cmp::Ordering::Greater
        } else {
            std::cmp::Ordering::Equal
        }
    }
}

impl std::str::FromStr for GoVersion {
    type Err = ParseError;

    fn from_str(s: &str) -> Result<GoVersion, ParseError> {
        GoVersion::parse(s)
    }
}


proof fn lemma_digit_char(d: nat)
    requires
        d < 10,
    ensures
        is_digit(digit_char(d)),
        digit_of(digit_char(d)) == d,
{
    let t = seq!['0', '1', '2', '3', '4', '5', '6', '7', '8', '9'];
    assert(t[0] == '0' && t[1] == '1' && t[2] == '2' && t[3] == '3' && t[4] == '4');
    assert(t[5] == '5' && t[6] == '6' && t[7] == '7' && t[8] == '8' && t[9] == '9');
}

pub proof fn lemma_decimal(n: nat)
    ensures
        decimal(n).len() >= 1,
        all_digits(decimal(n)),
        digits_value(decimal(n)) == n,
    decreases n,
{
    if n < 10 {
        lemma_digit_char(n);
        let s = decimal(n);
        assert(s.drop_last() =~= Seq::<char>::empty());
        assert(digits_value(s) == digits_value(s.drop_last()) * 10 + digit_of(s.last()));
    } else {
        lemma_decimal(n / 10);
        lemma_digit_char(n % 10);
        let s = decimal(n);
        assert(s.drop_last() =~= decimal(n / 10));
        assert(digits_value(s) == (n / 10) * 10 + n % 10);
        assert((n / 10) * 10 + n % 10 == n) by (nonlinear_arith);
    }
}

proof fn lemma_number_of_decimal(n: u32)
    ensures
        number_of(decimal(n as nat)) == Some(n),
{
    lemma_decimal(n as nat);
    assert(is_digit(decimal(n as nat)[0]));
}

proof fn lemma_split_push_sep(p: Seq<char>, sep: char)
    ensures
        split_on(p.push(sep), sep) == split_on(p, sep).push(Seq::<char>::empty()),
{
    assert(p.push(sep).drop_last() =~= p);
}

proof fn lemma_split_append_plain(p: Seq<char>, t: Seq<char>, sep: char)
    requires
        forall|i: int| 0 <= i < t.len() ==> t[i] != sep,
    ensures
        split_on(p + t, sep) == split_on(p, sep).update(
            split_on(p, sep).len() - 1,
            split_on(p, sep).last() + t,
        ),
    decreases t.len(),
{
    lemma_split_on_nonempty(p, sep);
    let g = split_on(p, sep);
    if t.len() == 0 {
        assert(p + t =~= p);
        assert(g.last() + t =~= g.last());
        assert(g.update(g.len() - 1, g.last()) =~= g);
    } else {
        let t0 = t.drop_last();
        lemma_split_append_plain(p, t0, sep);
        assert((p + t).drop_last() =~= p + t0);
        assert((p + t).last() == t.last());
        assert(g.last() + t0 + seq![t.last()] =~= g.last() + t);
        assert((g.last() + t0).push(t.last()) =~= g.last() + t);
        assert(split_on(p + t, sep) =~= g.update(g.len() - 1, g.last() + t));
    }
}

proof fn lemma_split_dir_name(v: GoVersion)
    ensures
        split_on(dir_name(v), '.') == seq![
            decimal(v.major as nat),
            decimal(v.minor as nat),
            decimal(v.patch as nat),
        ],
{
    let a = decimal(v.major as nat);
    let b = decimal(v.minor as nat);
    let c = decimal(v.patch as nat);
    lemma_decimal(v.major as nat);
    lemma_decimal(v.minor as nat);
    lemma_decimal(v.patch as nat);
    assert forall|i: int| 0 <= i < a.len() implies a[i] != '.' by {
        assert(is_digit(a[i]));
    }
    assert forall|i: int| 0 <= i < b.len() implies b[i] != '.' by {
        assert(is_digit(b[i]));
    }
    assert forall|i: int| 0 <= i < c.len() implies c[i] != '.' by {
        assert(is_digit(c[i]));
    }
    let e = Seq::<char>::empty();
    assert(split_on(e, '.') == seq![e]);
    lemma_split_append_plain(e, a, '.');
    assert(e + a =~= a);
    assert(split_on(a, '.') =~= seq![a]);
    lemma_split_push_sep(a, '.');
    lemma_split_append_plain(a.push('.'), b, '.');
    assert(split_on(a.push('.') + b, '.') =~= seq![a, b]);
    lemma_split_push_sep(a.push('.') + b, '.');
    lemma_split_append_plain((a.push('.') + b).push('.'), c, '.');
    assert(split_on((a.push('.') + b).push('.') + c, '.') =~= seq![a, b, c]);
    assert((a.push('.') + b).push('.') + c =~= dir_name(v));
}

/// A text that holds `dir_name(v)` once whitespace and prefixes are
/// dropped denotes `v`.
proof fn lemma_parsed_when_cleaned(s: Seq<char>, v: GoVersion)
    requires
        cleaned(s) == dir_name(v),
    ensures
        parsed(s) == Some(v),
{
    lemma_split_dir_name(v);
    lemma_number_of_decimal(v.major);
    lemma_number_of_decimal(v.minor);
    lemma_number_of_decimal(v.patch);
}

proof fn lemma_dir_name_ends(v: GoVersion)
    ensures
        dir_name(v).len() > 0,
        is_digit(dir_name(v)[0]),
        is_digit(dir_name(v).last()),
{
    lemma_decimal(v.major as nat);
    lemma_decimal(v.patch as nat);
    let a = decimal(v.major as nat);
    let c = decimal(v.patch as nat);
    assert(dir_name(v)[0] == a[0]);
    assert(dir_name(v).last() == c.last());
    assert(is_digit(a[0]));
    assert(is_digit(c[c.len() - 1]));
}

proof fn lemma_trim_keeps(s: Seq<char>)
    requires
        s.len() > 0,
        !is_ws(s[0]),
        !is_ws(s.last()),
    ensures
        trim(s) == s,
{
}

/// Parsing the directory name of a version gives the version back.
pub proof fn lemma_dir_name_round_trip(v: GoVersion)
    ensures
        parsed(dir_name(v)) == Some(v),
{
    let x = dir_name(v);
    lemma_dir_name_ends(v);
    lemma_trim_keeps(x);
    assert(strip_v(x) == x);
    assert(strip_go(x) == x);
    lemma_parsed_when_cleaned(x, v);
}

/// `a.b.c`, `va.b.c` and `goa.b.c` all denote the version (a, b, c).
pub proof fn lemma_prefixes_agree(a: u32, b: u32, c: u32)
    ensures
        parsed(dir_name(GoVersion { major: a, minor: b, patch: c })) == Some(
            GoVersion { major: a, minor: b, patch: c },
        ),
        parsed(seq!['v'] + dir_name(GoVersion { major: a, minor: b, patch: c })) == Some(
            GoVersion { major: a, minor: b, patch: c },
        ),
        parsed(seq!['g', 'o'] + dir_name(GoVersion { major: a, minor: b, patch: c })) == Some(
            GoVersion { major: a, minor: b, patch: c },
        ),
{
    let v = GoVersion { major: a, minor: b, patch: c };
    let x = dir_name(v);
    lemma_dir_name_round_trip(v);
    lemma_dir_name_ends(v);
    let xv = seq!['v'] + x;
    assert(xv[0] == 'v');
    assert(xv.last() == x.last());
    lemma_trim_keeps(xv);
    assert(xv.drop_first() =~= x);
    assert(strip_v(x) == x);
    assert(strip_v(xv) == x);
    assert(strip_go(x) == x);
    lemma_parsed_when_cleaned(xv, v);
    let xg = seq!['g', 'o'] + x;
    assert(xg[0] == 'g' && xg[1] == 'o');
    assert(xg.last() == x.last());
    lemma_trim_keeps(xg);
    assert(strip_v(xg) == xg);
    assert(xg.subrange(2, xg.len() as int) =~= x);
    assert(strip_go(xg) == x);
    lemma_parsed_when_cleaned(xg, v);
}

/// The order on versions is a strict total order.
pub proof fn lemma_order_total(a: GoVersion, b: GoVersion, c: GoVersion)
    ensures
        !version_lt(a, a),
        version_lt(a, b) ==> !version_lt(b, a),
        version_lt(a, b) && version_lt(b, c) ==> version_lt(a, c),
        version_lt(a, b) || version_lt(b, a) || a == b,
{
}

} // verus!
