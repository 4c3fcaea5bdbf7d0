//! Version specifiers: parsing and rendering of possibly partial version
//! requests such as `14`, `14.2` or `14.2.0`.

use vstd::prelude::*;

verus! {

/// Error returned when a specifier string has the wrong arity or a
/// non-numeric component.
#[derive(Debug, Clone, Copy, PartialEq, Eq, Structural)]
pub struct InvalidVersionError;

impl InvalidVersionError {
    /// A human-readable description of the error.
    pub fn message(&self) -> (r: &'static str)
        ensures
            r@ == "Invalid Node.js version"@,
    {
        "Invalid Node.js version"
    }
}

/// A user-supplied, possibly partial, version request.
#[derive(Debug, Clone, Copy, PartialEq, Eq, Structural)]
pub enum NodeVersion {
    Major(u64),
    MajorMinor(u64, u64),
    Specific(u64, u64, u64),
}

/// `c` is a decimal digit.
pub open spec fn is_digit(c: char) -> bool {
    48 <= c as int <= 57
}

/// Numeric value of a digit character.
pub open spec fn digit_val(c: char) -> nat {
    (c as int - 48) as nat
}

/// Every character of `s` is a decimal digit.
pub open spec fn all_digits(s: Seq<char>) -> bool {
    forall|i: int| 0 <= i < s.len() ==> is_digit(#[trigger] s[i])
}

/// Numeric value of a digit string, most significant digit first.
pub open spec fn digits_val(s: Seq<char>) -> nat
    decreases s.len(),
{
    if s.len() == 0 {
        0
    } else {
        digits_val(s.drop_last()) * 10 + digit_val(s.last())
    }
}

/// A well-formed version component: nonempty, numeric, and within the
/// range of the component integer type.
pub open spec fn is_component(s: Seq<char>) -> bool {
    s.len() > 0 && all_digits(s) && digits_val(s) <= u64::MAX
}

/// The segments of `s` between occurrences of `.`, in order.
/// A string with no dots is a single segment; every dot starts a new
/// (possibly empty) segment.
pub open spec fn split_dots(s: Seq<char>) -> Seq<Seq<char>>
    decreases s.len(),
{
    if s.len() == 0 {
        seq![Seq::<char>::empty()]
    } else if s[0] == '.' {
        seq![Seq::<char>::empty()] + split_dots(s.drop_first())
    } else {
        let rest = split_dots(s.drop_first());
        seq![seq![s[0]] + rest[0]] + rest.drop_first()
    }
}

/// A split always yields at least one segment.
pub proof fn lemma_split_dots_nonempty(s: Seq<char>)
    ensures
        split_dots(s).len() >= 1,
    decreases s.len(),
{
    if s.len() != 0 {
        lemma_split_dots_nonempty(s.drop_first());
    }
}

/// Appending a character extends the last segment, or starts a fresh one
/// when the character is a dot.
proof fn lemma_split_dots_push(s: Seq<char>, c: char)
    ensures
        c == '.' ==> split_dots(s.push(c)) =~~= split_dots(s).push(Seq::<char>::empty()),
        c != '.' ==> split_dots(s.push(c)) =~~= split_dots(s).update(
            split_dots(s).len() - 1,
            split_dots(s).last().push(c),
        ),
    decreases s.len(),
{
    lemma_split_dots_nonempty(s);
    if s.len() == 0 {
        assert(s.push(c).drop_first() =~= Seq::<char>::empty());
        assert(split_dots(Seq::<char>::empty()) =~~= seq![Seq::<char>::empty()]);
        if c != '.' {
            assert(split_dots(s.push(c)) =~~= seq![seq![c]]);
            assert(split_dots(s).update(0, split_dots(s).last().push(c)) =~~= seq![seq![c]]);
        }
    } else {
        assert(s.push(c).drop_first() =~= s.drop_first().push(c));
        lemma_split_dots_push(s.drop_first(), c);
        lemma_split_dots_nonempty(s.drop_first());
        let tail = split_dots(s.drop_first());
        let whole = split_dots(s);
        if s[0] == '.' {
            assert(whole =~~= seq![Seq::<char>::empty()] + tail);
            assert(whole.last() == tail.last());
            if c == '.' {
                assert(split_dots(s.push(c)) =~~= seq![Seq::<char>::empty()] + tail.push(
                    Seq::<char>::empty(),
                ));
            } else {
                assert(split_dots(s.push(c)) =~~= seq![Seq::<char>::empty()] + tail.update(
                    tail.len() - 1,
                    tail.last().push(c),
                ));
            }
        } else {
            assert(whole =~~= seq![seq![s[0]] + tail[0]] + tail.drop_first());
            if c == '.' {
                let tail2 = split_dots(s.drop_first().push(c));
                assert(tail2 =~~= tail.push(Seq::<char>::empty()));
                assert(tail2[0] == tail[0]);
                assert(split_dots(s.push(c)) =~~= seq![seq![s[0]] + tail2[0]] + tail2.drop_first());
                assert(split_dots(s.push(c)) =~~= whole.push(Seq::<char>::empty()));
            } else {
                let tail2 = split_dots(s.drop_first().push(c));
                assert(tail2 =~~= tail.update(tail.len() - 1, tail.last().push(c)));
                assert(split_dots(s.push(c)) =~~= seq![seq![s[0]] + tail2[0]] + tail2.drop_first());
                if tail.len() == 1 {
                    assert(whole.last() == seq![s[0]] + tail[0]);
                    assert(tail2[0] == tail[0].push(c));
                    assert(seq![s[0]] + tail[0].push(c) =~= (seq![s[0]] + tail[0]).push(c));
                    assert(split_dots(s.push(c)) =~~= whole.update(
                        whole.len() - 1,
                        whole.last().push(c),
                    ));
                } else {
                    assert(tail2[0] == tail[0]);
                    assert(whole.last() == tail.last());
                    assert(split_dots(s.push(c)) =~~= whole.update(
                        whole.len() - 1,
                        whole.last().push(c),
                    ));
                }
            }
        }
    }
}

/// The meaning of a parsed specifier string: split on dots; one, two or
/// three well-formed components give the corresponding specifier shape,
/// and anything else is rejected.
pub open spec fn spec_parse(s: Seq<char>) -> Option<NodeVersion> {
    let parts = split_dots(s);
    if parts.len() == 1 && is_component(parts[0]) {
        Some(NodeVersion::Major(digits_val(parts[0]) as u64))
    } else if parts.len() == 2 && is_component(parts[0]) && is_component(parts[1]) {
        Some(NodeVersion::MajorMinor(digits_val(parts[0]) as u64, digits_val(parts[1]) as u64))
    } else if parts.len() == 3 && is_component(parts[0]) && is_component(parts[1]) && is_component(
        parts[2],
    ) {
        Some(
            NodeVersion::Specific(
                digits_val(parts[0]) as u64,
                digits_val(parts[1]) as u64,
                digits_val(parts[2]) as u64,
            ),
        )
    } else {
        None
    }
}

/// The numeric value of a digit string never shrinks as the string grows.
proof fn lemma_digits_val_prefix_monotone(s: Seq<char>, i: int)
    requires
        0 <= i <= s.len(),
    ensures
        digits_val(s.take(i)) <= digits_val(s),
    decreases s.len() - i,
{
    if i < s.len() {
        let t = s.take(i + 1);
        assert(t.drop_last() =~= s.take(i));
        assert(digits_val(s.take(i)) <= digits_val(t));
        lemma_digits_val_prefix_monotone(s, i + 1);
        assert(s.take(s.len() as int) =~= s);
    } else {
        assert(s.take(i) =~= s);
    }
}

/// Numeric value of a digit character, or `None` for any other character.
fn digit_of(c: char) -> (r: Option<u64>)
    ensures
        match r {
            Some(d) => is_digit(c) && d as nat == digit_val(c),
            None => !is_digit(c),
        },
{
    match c {
        '0' => Some(0),
        '1' => Some(1),
        '2' => Some(2),
        '3' => Some(3),
        '4' => Some(4),
        '5' => Some(5),
        '6' => Some(6),
        '7' => Some(7),
        '8' => Some(8),
        '9' => Some(9),
        _ => None,
    }
}

/// Parse one dot-free component as an integer.
fn parse_component(part: &Vec<char>) -> (r: Option<u64>)
    ensures
        match r {
            Some(v) => is_component(part@) && v as nat == digits_val(part@),
            None => !is_component(part@),
        },
{
    if part.len() == 0 {
        return None;
    }
    let mut acc: u64 = 0;
    let mut i: usize = 0;
    while i < part.len()
        invariant
            0 <= i <= part@.len(),
            all_digits(part@.take(i as int)),
            acc as nat == digits_val(part@.take(i as int)),
        decreases part@.len() - i,
    {
        let c = part[i];
        let d = match digit_of(c) {
            Some(d) => d,
            None => {
                assert(!is_digit(part@[i as int]));
                return None;
            },
        };
        proof {
            assert(part@.take(i + 1).drop_last() =~= part@.take(i as int));
            assert(part@.take(i + 1).last() == part@[i as int]);
        }
        let shifted = match acc.checked_mul(10) {
            Some(x) => x,
            None => {
                proof {
                    lemma_digits_val_prefix_monotone(part@, i + 1);
                }
                return None;
            },
        };
        let next = match shifted.checked_add(d) {
            Some(x) => x,
            None => {
                proof {
                    lemma_digits_val_prefix_monotone(part@, i + 1);
                }
                return None;
            },
        };
        acc = next;
        proof {
            assert(is_digit(part@[i as int]));
            assert(part@.take(i + 1) =~= part@.take(i as int).push(part@[i as int]));
            assert forall|j: int| 0 <= j < i + 1 implies is_digit(#[trigger] part@.take(i + 1)[j]) by {
                if j < i {
                    assert(is_digit(part@.take(i as int)[j]));
                }
            }
            assert(digit_val(part@[i as int]) == d as nat);
            assert(acc as nat == digits_val(part@.take(i + 1)));
        }
        i = i + 1;
    }
    proof {
        assert(part@.take(part@.len() as int) =~= part@);
    }
    Some(acc)
}

impl NodeVersion {
    /// Parse a specifier string: one to three dot-separated non-negative
    /// integer components; anything else is an `InvalidVersionError`.
    pub fn try_from(text: &str) -> (r: Result<NodeVersion, InvalidVersionError>)
        ensures
            match r {
                Ok(v) => spec_parse(text@) == Some(v),
                Err(_) => spec_parse(text@) is None,
            },
    {
        let len = text.unicode_len();
        let mut parts: Vec<Vec<char>> = Vec::new();
        let first: Vec<char> = Vec::new();
        parts.push(first);
        assert(parts.deep_view() =~~= split_dots(text@.take(0)));
        let mut i: usize = 0;
        while i < len
            invariant
                0 <= i <= len,
                len == text@.len(),
                parts@.len() >= 1,
                parts.deep_view() =~~= split_dots(text@.take(i as int)),
            decreases len - i,
        {
            let c = text.get_char(i);
            proof {
                lemma_split_dots_push(text@.take(i as int), c);
                assert(text@.take(i as int).push(c) =~= text@.take(i + 1));
                lemma_split_dots_nonempty(text@.take(i as int));
            }
            if c == '.' {
                let fresh: Vec<char> = Vec::new();
                parts.push(fresh);
                assert(parts.deep_view() =~~= split_dots(text@.take(i + 1)));
            } else {
                let mut last = parts.pop().unwrap();
                last.push(c);
                parts.push(last);
                assert(parts.deep_view() =~~= split_dots(text@.take(i + 1)));
            }
            i = i + 1;
        }
        proof {
            assert(text@.take(len as int) =~= text@);
            assert(parts@.len() == split_dots(text@).len());
            assert forall|k: int| 0 <= k < parts@.len() implies #[trigger] parts@[k]@ == split_dots(
                text@,
            )[k] by {
                assert(parts@[k]@ =~= parts.deep_view()[k]);
            }
        }
        if parts.len() == 1 {
            match parse_component(&parts[0]) {
                Some(major) => Ok(NodeVersion::Major(major)),
                None => Err(InvalidVersionError),
            }
        } else if parts.len() == 2 {
            let major = match parse_component(&parts[0]) {
                Some(v) => v,
                None => {
                    return Err(InvalidVersionError);
                },
            };
            let minor = match parse_component(&parts[1]) {
                Some(v) => v,
                None => {
                    return Err(InvalidVersionError);
                },
            };
            Ok(NodeVersion::MajorMinor(major, minor))
        } else if parts.len() == 3 {
            let major = match parse_component(&parts[0]) {
                Some(v) => v,
                None => {
                    return Err(InvalidVersionError);
                },
            };
            let minor = match parse_component(&parts[1]) {
                Some(v) => v,
                None => {
                    return Err(InvalidVersionError);
                },
            };
            let patch = match parse_component(&parts[2]) {
                Some(v) => v,
                None => {
                    return Err(InvalidVersionError);
                },
            };
            Ok(NodeVersion::Specific(major, minor, patch))
        } else {
            Err(InvalidVersionError)
        }
    }
}

/// A concrete three-component version, as published in a release catalog.
#[derive(Debug, Clone, Copy, PartialEq, Eq, Structural)]
pub struct FullVersion {
    pub major: u64,
    pub minor: u64,
    pub patch: u64,
}

/// The digit character for a value below ten.
pub open spec fn digit_char(d: nat) -> char {
    if d == 0 {
        '0'
    } else if d == 1 {
        '1'
    } else if d == 2 {
        '2'
    } else if d == 3 {
        '3'
    } else if d == 4 {
        '4'
    } else if d == 5 {
        '5'
    } else if d == 6 {
        '6'
    } else if d == 7 {
        '7'
    } else if d == 8 {
        '8'
    } else {
        '9'
    }
}

/// Decimal digit characters of `n`, most significant first, no leading
/// zeros (a lone zero for `n == 0`).
pub open spec fn dec_chars(n: nat) -> Seq<char>
    decreases n,
{
    if n < 10 {
        seq![digit_char(n)]
    } else {
        dec_chars(n / 10).push(digit_char(n % 10))
    }
}

/// The decimal rendering of a number is a well-formed component with the
/// same value.
pub proof fn lemma_dec_chars_digits(n: nat)
    ensures
        dec_chars(n).len() >= 1,
        all_digits(dec_chars(n)),
        digits_val(dec_chars(n)) == n,
        forall|i: int| 0 <= i < dec_chars(n).len() ==> #[trigger] dec_chars(n)[i] != '.',
    decreases n,
{
    if n < 10 {
        assert(digit_val(digit_char(n)) == n);
        assert(seq![digit_char(n)].drop_last() =~= Seq::<char>::empty());
        assert(digits_val(Seq::<char>::empty()) == 0);
        assert(digits_val(seq![digit_char(n)]) == digit_val(digit_char(n)));
    } else {
        lemma_dec_chars_digits(n / 10);
        let s = dec_chars(n);
        let prefix = dec_chars(n / 10);
        assert(s.drop_last() =~= prefix);
        assert(s.last() == digit_char(n % 10));
        assert(digit_val(digit_char(n % 10)) == n % 10);
        assert(digits_val(s) == digits_val(prefix) * 10 + digit_val(digit_char(n % 10)));
        assert(n == (n / 10) * 10 + n % 10) by (nonlinear_arith);
        assert(digits_val(s) == n);
        assert forall|i: int| 0 <= i < s.len() implies is_digit(#[trigger] s[i]) && s[i] != '.' by {
            if i < prefix.len() {
                assert(s[i] == prefix[i]);
                assert(is_digit(prefix[i]));
                assert(prefix[i] != '.');
            }
        }
    }
}

/// The digit character of a value below ten, as a string slice.
fn digit_str(d: u64) -> (r: &'static str)
    requires
        d < 10,
    ensures
        r@ =~= seq![digit_char(d as nat)],
{
    proof {
        reveal_strlit("0");
        reveal_strlit("1");
        reveal_strlit("2");
        reveal_strlit("3");
        reveal_strlit("4");
        reveal_strlit("5");
        reveal_strlit("6");
        reveal_strlit("7");
        reveal_strlit("8");
        reveal_strlit("9");
    }
    match d {
        0 => "0",
        1 => "1",
        2 => "2",
        3 => "3",
        4 => "4",
        5 => "5",
        6 => "6",
        7 => "7",
        8 => "8",
        _ => "9",
    }
}

/// Render a number as its decimal digit string.
pub fn u64_to_string(n: u64) -> (s: String)
    ensures
        s@ == dec_chars(n as nat),
    decreases n,
{
    if n < 10 {
        digit_str(n).to_owned()
    } else {
        proof {
            assert(n / 10 < n) by (nonlinear_arith)
                requires
                    n >= 10,
            ;
        }
        let mut s = u64_to_string(n / 10);
        s.append(digit_str(n % 10));
        s
    }
}

/// The canonical string form of a specifier: its components joined by dots.
pub open spec fn spec_render(v: NodeVersion) -> Seq<char> {
    match v {
        NodeVersion::Major(m) => dec_chars(m as nat),
        NodeVersion::MajorMinor(m, n) => dec_chars(m as nat) + seq!['.'] + dec_chars(n as nat),
        NodeVersion::Specific(m, n, p) => dec_chars(m as nat) + seq!['.'] + dec_chars(n as nat)
            + seq!['.'] + dec_chars(p as nat),
    }
}

/// The canonical string form of a full version: `major.minor.patch`.
pub open spec fn spec_render_full(v: FullVersion) -> Seq<char> {
    dec_chars(v.major as nat) + seq!['.'] + dec_chars(v.minor as nat) + seq!['.'] + dec_chars(
        v.patch as nat,
    )
}

impl NodeVersion {
    /// The string form of the specifier, components joined by dots.
    pub fn version_string(&self) -> (s: String)
        ensures
            s@ == spec_render(*self),
    {
        proof {
            reveal_strlit(".");
        }
        match self {
            NodeVersion::Major(m) => u64_to_string(*m),
            NodeVersion::MajorMinor(m, n) => {
                let mut s = u64_to_string(*m);
                s.append(".");
                let minor = u64_to_string(*n);
                s.append(minor.as_str());
                proof {
                    assert("."@ =~= seq!['.']);
                }
                assert(s@ =~= spec_render(*self));
                s
            },
            NodeVersion::Specific(m, n, p) => {
                let mut s = u64_to_string(*m);
                s.append(".");
                let minor = u64_to_string(*n);
                s.append(minor.as_str());
                s.append(".");
                let patch = u64_to_string(*p);
                s.append(patch.as_str());
                proof {
                    assert("."@ =~= seq!['.']);
                }
                assert(s@ =~= spec_render(*self));
                s
            },
        }
    }
}

impl FullVersion {
    /// The string form `major.minor.patch`.
    pub fn version_string(&self) -> (s: String)
        ensures
            s@ == spec_render_full(*self),
    {
        proof {
            reveal_strlit(".");
        }
        let mut s = u64_to_string(self.major);
        s.append(".");
        let minor = u64_to_string(self.minor);
        s.append(minor.as_str());
        s.append(".");
        let patch = u64_to_string(self.patch);
        s.append(patch.as_str());
        proof {
            assert("."@ =~= seq!['.']);
        }
        assert(s@ =~= spec_render_full(*self));
        s
    }

    /// `self` is the same version as, or older than, `other`.
    pub fn le(&self, other: &FullVersion) -> (r: bool)
        ensures
            r == version_le(*self, *other),
    {
        self.major < other.major || (self.major == other.major && (self.minor < other.minor || (
        self.minor == other.minor && self.patch <= other.patch)))
    }

    /// `self` satisfies the possibly partial request `request`: every
    /// component the request names must be equal.
    pub fn satisfies(&self, request: &NodeVersion) -> (r: bool)
        ensures
            r == spec_satisfies(*self, *request),
    {
        match request {
            NodeVersion::Major(m) => self.major == *m,
            NodeVersion::MajorMinor(m, n) => self.major == *m && self.minor == *n,
            NodeVersion::Specific(m, n, p) => self.major == *m && self.minor == *n && self.patch
                == *p,
        }
    }
}

/// Total order on full versions: lexicographic by major, then minor, then
/// patch.
pub open spec fn version_le(a: FullVersion, b: FullVersion) -> bool {
    a.major < b.major || (a.major == b.major && (a.minor < b.minor || (a.minor == b.minor
        && a.patch <= b.patch)))
}

/// The match relation: a full version satisfies a specifier exactly when
/// the components the specifier names are equal.
pub open spec fn spec_satisfies(v: FullVersion, request: NodeVersion) -> bool {
    match request {
        NodeVersion::Major(m) => v.major == m,
        NodeVersion::MajorMinor(m, n) => v.major == m && v.minor == n,
        NodeVersion::Specific(m, n, p) => v.major == m && v.minor == n && v.patch == p,
    }
}

/// The full version a specifier names when unstated components default to
/// zero.
pub open spec fn full_of_specifier(v: NodeVersion) -> FullVersion {
    match v {
        NodeVersion::Major(m) => FullVersion { major: m, minor: 0, patch: 0 },
        NodeVersion::MajorMinor(m, n) => FullVersion { major: m, minor: n, patch: 0 },
        NodeVersion::Specific(m, n, p) => FullVersion { major: m, minor: n, patch: p },
    }
}

impl From<NodeVersion> for FullVersion {
    /// Zero-fill the components the specifier leaves unstated.
    fn from(v: NodeVersion) -> (r: FullVersion) {
        match v {
            NodeVersion::Major(m) => FullVersion { major: m, minor: 0, patch: 0 },
            NodeVersion::MajorMinor(m, n) => FullVersion { major: m, minor: n, patch: 0 },
            NodeVersion::Specific(m, n, p) => FullVersion { major: m, minor: n, patch: p },
        }
    }
}

impl vstd::std_specs::convert::FromSpecImpl<NodeVersion> for FullVersion {
    open spec fn obeys_from_spec() -> bool {
        true
    }

    open spec fn from_spec(v: NodeVersion) -> FullVersion {
        full_of_specifier(v)
    }
}

/// The version order is total.
pub proof fn lemma_version_order_total(a: FullVersion, b: FullVersion)
    ensures
        version_le(a, b) || version_le(b, a),
{
}

/// The version order is antisymmetric.
pub proof fn lemma_version_order_antisymmetric(a: FullVersion, b: FullVersion)
    ensures
        version_le(a, b) && version_le(b, a) ==> a == b,
{
}

/// The version order is transitive.
pub proof fn lemma_version_order_transitive(a: FullVersion, b: FullVersion, c: FullVersion)
    ensures
        version_le(a, b) && version_le(b, c) ==> version_le(a, c),
{
}

/// A string without dots is a single dot-separated segment.
proof fn lemma_split_dots_no_dot(s: Seq<char>)
    requires
        forall|i: int| 0 <= i < s.len() ==> #[trigger] s[i] != '.',
    ensures
        split_dots(s) =~~= seq![s],
    decreases s.len(),
{
    if s.len() != 0 {
        lemma_split_dots_no_dot(s.drop_first());
    }
}

/// Splitting `a + "." + b` where `a` is dot-free yields `a` followed by the
/// segments of `b`.
proof fn lemma_split_dots_concat(a: Seq<char>, b: Seq<char>)
    requires
        forall|i: int| 0 <= i < a.len() ==> #[trigger] a[i] != '.',
    ensures
        split_dots(a + seq!['.'] + b) =~~= seq![a] + split_dots(b),
    decreases a.len(),
{
    let s = a + seq!['.'] + b;
    if a.len() == 0 {
        assert(s[0] == '.');
        assert(s.drop_first() =~= b);
    } else {
        assert(s[0] == a[0]);
        assert(s.drop_first() =~= a.drop_first() + seq!['.'] + b);
        lemma_split_dots_concat(a.drop_first(), b);
        lemma_split_dots_nonempty(b);
        let rest = split_dots(s.drop_first());
        assert(rest[0] == a.drop_first());
        assert(seq![s[0]] + rest[0] =~= a);
    }
}

/// Parsing the canonical rendering of a specifier yields the specifier
/// back.
pub proof fn lemma_parse_render_round_trip(v: NodeVersion)
    ensures
        spec_parse(spec_render(v)) == Some(v),
{
    match v {
        NodeVersion::Major(m) => {
            lemma_dec_chars_digits(m as nat);
            lemma_split_dots_no_dot(dec_chars(m as nat));
        },
        NodeVersion::MajorMinor(m, n) => {
            lemma_dec_chars_digits(m as nat);
            lemma_dec_chars_digits(n as nat);
            lemma_split_dots_concat(dec_chars(m as nat), dec_chars(n as nat));
            lemma_split_dots_no_dot(dec_chars(n as nat));
            let parts = split_dots(spec_render(v));
            assert(parts =~~= seq![dec_chars(m as nat)] + seq![dec_chars(n as nat)]);
            assert(parts.len() == 2);
            assert(parts[0] == dec_chars(m as nat));
            assert(parts[1] == dec_chars(n as nat));
        },
        NodeVersion::Specific(m, n, p) => {
            lemma_dec_chars_digits(m as nat);
            lemma_dec_chars_digits(n as nat);
            lemma_dec_chars_digits(p as nat);
            let tail = dec_chars(n as nat) + seq!['.'] + dec_chars(p as nat);
            assert(spec_render(v) =~= dec_chars(m as nat) + seq!['.'] + tail);
            lemma_split_dots_concat(dec_chars(m as nat), tail);
            lemma_split_dots_concat(dec_chars(n as nat), dec_chars(p as nat));
            lemma_split_dots_no_dot(dec_chars(p as nat));
            let parts = split_dots(spec_render(v));
            assert(parts =~~= seq![dec_chars(m as nat)] + (seq![dec_chars(n as nat)] + seq![
                dec_chars(p as nat),
            ]));
            assert(parts.len() == 3);
            assert(parts[0] == dec_chars(m as nat));
            assert(parts[1] == dec_chars(n as nat));
            assert(parts[2] == dec_chars(p as nat));
        },
    }
}

} // verus!
