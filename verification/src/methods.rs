//! Names of the filters, routing modes and planners that the experiments
//! compare, and what each name selects.

use vstd::prelude::*;

verus! {

/// Number of points of the reference grid filter.
pub const NGRID: usize = 301;

/// Whether `c` is an ASCII decimal digit.
pub open spec fn is_digit(c: char) -> bool {
    '0' <= c <= '9'
}

/// Whether every character of `ds` is a decimal digit.
pub open spec fn all_digits(ds: Seq<char>) -> bool {
    forall|k: int| 0 <= k < ds.len() ==> is_digit(#[trigger] ds[k])
}

/// The number written by the decimal digits `ds`, most significant first.
pub open spec fn decimal_value(ds: Seq<char>) -> int
    decreases ds.len(),
{
    if ds.len() == 0 {
        0
    } else {
        decimal_value(ds.drop_last()) * 10 + (ds.last() as int - '0' as int)
    }
}

/// The digits of an unsigned decimal numeral: the text after an optional
/// leading '+'.
pub open spec fn unsigned_digits(s: Seq<char>) -> Seq<char> {
    if s.len() > 0 && s[0] == '+' {
        s.drop_first()
    } else {
        s
    }
}

/// The value of `s` read as a `usize` numeral the way the standard library
/// reads one: an optional '+', then at least one decimal digit and nothing
/// else, with a value that fits in a `usize`; `None` for anything else.
pub open spec fn usize_numeral(s: Seq<char>) -> Option<usize> {
    let ds = unsigned_digits(s);
    if ds.len() > 0 && all_digits(ds) && decimal_value(ds) <= usize::MAX {
        Some(decimal_value(ds) as usize)
    } else {
        None
    }
}

/// Whether `p` is a prefix of `s`.
pub open spec fn is_prefix(p: Seq<char>, s: Seq<char>) -> bool {
    p.len() <= s.len() && s.subrange(0, p.len() as int) == p
}

proof fn lemma_decimal_prefix_le(ds: Seq<char>, k: int)
    requires
        all_digits(ds),
        0 <= k <= ds.len(),
    ensures
        0 <= decimal_value(ds.subrange(0, k)) <= decimal_value(ds),
    decreases ds.len(),
{
    if ds.len() > 0 {
        assert(all_digits(ds.drop_last()));
        assert(is_digit(ds[ds.len() - 1]));
        if k == ds.len() {
            assert(ds.subrange(0, k) =~= ds);
            lemma_decimal_prefix_le(ds.drop_last(), k - 1);
            assert(ds.drop_last().subrange(0, k - 1) =~= ds.drop_last());
        } else {
            assert(ds.drop_last().subrange(0, k) =~= ds.subrange(0, k));
            lemma_decimal_prefix_le(ds.drop_last(), k);
        }
    }
}

/// Whether the characters of `a` and `b` are the same.
pub fn str_equal(a: &str, b: &str) -> (r: bool)
    ensures
        r == (a@ == b@),
{
    let n = a.unicode_len();
    if n != b.unicode_len() {
        return false;
    }
    let mut i: usize = 0;
    while i < n
        invariant
            n == a@.len(),
            n == b@.len(),
            i <= n,
            a@.subrange(0, i as int) == b@.subrange(0, i as int),
        decreases n - i,
    {
        if a.get_char(i) != b.get_char(i) {
            return false;
        }
        assert(a@.subrange(0, i + 1) =~= a@.subrange(0, i as int).push(a@[i as int]));
        assert(b@.subrange(0, i + 1) =~= b@.subrange(0, i as int).push(b@[i as int]));
        i = i + 1;
    }
    assert(a@ =~= a@.subrange(0, n as int));
    assert(b@ =~= b@.subrange(0, n as int));
    true
}

/// Whether `s` begins with the characters of `prefix`.
pub fn starts_with(s: &str, prefix: &str) -> (r: bool)
    ensures
        r == is_prefix(prefix@, s@),
{
    let n = prefix.unicode_len();
    if n > s.unicode_len() {
        return false;
    }
    let mut i: usize = 0;
    while i < n
        invariant
            n == prefix@.len(),
            n <= s@.len(),
            i <= n,
            s@.subrange(0, i as int) == prefix@.subrange(0, i as int),
        decreases n - i,
    {
        if s.get_char(i) != prefix.get_char(i) {
            assert(s@.subrange(0, n as int)[i as int] != prefix@[i as int]);
            return false;
        }
        assert(s@.subrange(0, i + 1) =~= s@.subrange(0, i as int).push(s@[i as int]));
        assert(prefix@.subrange(0, i + 1) =~= prefix@.subrange(0, i as int).push(prefix@[i as int]));
        i = i + 1;
    }
    assert(prefix@ =~= prefix@.subrange(0, n as int));
    true
}

/// Reads the characters of `s` from `start` on as a `usize` numeral.
pub fn parse_usize_from(s: &str, start: usize) -> (r: Option<usize>)
    requires
        start <= s@.len(),
    ensures
        r == usize_numeral(s@.subrange(start as int, s@.len() as int)),
{
    let ghost rest = s@.subrange(start as int, s@.len() as int);
    let ghost ds = unsigned_digits(rest);
    let n = s.unicode_len();
    let mut i = start;
    if i < n && s.get_char(i) == '+' {
        i = i + 1;
    }
    let first = i;
    assert(ds =~= s@.subrange(first as int, n as int));
    if i == n {
        return None;
    }
    let mut acc: usize = 0;
    while i < n
        invariant
            n == s@.len(),
            first <= i <= n,
            first < n,
            ds == s@.subrange(first as int, n as int),
            ds == unsigned_digits(s@.subrange(start as int, n as int)),
            all_digits(ds.subrange(0, i - first)),
            acc == decimal_value(ds.subrange(0, i - first)),
        decreases n - i,
    {
        let c = s.get_char(i);
        let ghost k: int = i - first;
        assert(ds[k] == c);
        assert(ds.subrange(0, k + 1).drop_last() =~= ds.subrange(0, k));
        if !(c >= '0' && c <= '9') {
            assert(!all_digits(ds));
            return None;
        }
        assert(all_digits(ds.subrange(0, k + 1)));
        let dv = (c as u32 - '0' as u32) as usize;
        match acc.checked_mul(10) {
            None => {
                proof {
                    if all_digits(ds) {
                        lemma_decimal_prefix_le(ds, k + 1);
                    }
                }
                return None;
            },
            Some(m) => match m.checked_add(dv) {
                None => {
                    proof {
                        if all_digits(ds) {
                            lemma_decimal_prefix_le(ds, k + 1);
                        }
                    }
                    return None;
                },
                Some(v) => {
                    acc = v;
                },
            },
        }
        i = i + 1;
    }
    assert(ds.subrange(0, n - first) =~= ds);
    Some(acc)
}

/// The decimal digit character of `d < 10`.
pub open spec fn digit_char(d: nat) -> char {
    ('0' as nat + d) as char
}

/// The shortest decimal numeral of `n`, most significant digit first.
pub open spec fn decimal_digits(n: nat) -> Seq<char>
    decreases n,
{
    if n < 10 {
        seq![digit_char(n)]
    } else {
        decimal_digits(n / 10).push(digit_char(n % 10))
    }
}

/// The decimal numeral of `n` is a nonempty string of digits that reads back
/// as `n`.
pub proof fn lemma_decimal_round_trip(n: nat)
    ensures
        decimal_digits(n).len() > 0,
        all_digits(decimal_digits(n)),
        decimal_value(decimal_digits(n)) == n,
    decreases n,
{
    if n < 10 {
        assert(digit_char(n) as int == '0' as int + n);
        assert(decimal_digits(n).drop_last() =~= Seq::<char>::empty());
        assert(decimal_value(decimal_digits(n)) == decimal_value(Seq::<char>::empty()) * 10 + n);
    } else {
        assert(digit_char(n % 10) as int == '0' as int + n % 10);
        lemma_decimal_round_trip(n / 10);
        assert(decimal_digits(n).drop_last() =~= decimal_digits(n / 10));
        let ds = decimal_digits(n);
        assert(ds.last() == digit_char(n % 10));
        assert(decimal_value(ds) == decimal_value(decimal_digits(n / 10)) * 10 + (n % 10));
        assert((n / 10) * 10 + n % 10 == n);
        assert forall|k: int| 0 <= k < ds.len() implies is_digit(#[trigger] ds[k]) by {
            if k < ds.len() - 1 {
                assert(ds[k] == decimal_digits(n / 10)[k]);
            }
        }
    }
}

/// A filter of the continuous-state experiment: a particle filter with the
/// given number of particles, an extended Kalman filter, or the exact grid
/// filter.
#[derive(Clone, Copy, Debug, PartialEq, Eq, Structural)]
pub enum Kind {
    PF(usize),
    Ekf,
    ExactGrid,
}

/// The filter a method name selects: "PF-" followed by a numeral selects a
/// particle filter with that many particles, "EKF" the Kalman filter, and
/// every other name the exact grid filter.
pub open spec fn method_kind(m: Seq<char>) -> Kind {
    if is_prefix("PF-"@, m) {
        Kind::PF(usize_numeral(m.subrange("PF-"@.len() as int, m.len() as int))->Some_0)
    } else if m == "EKF"@ {
        Kind::Ekf
    } else {
        Kind::ExactGrid
    }
}

/// Whether a method name can be read: a name that begins with "PF-" must go
/// on with a `usize` numeral.
pub open spec fn method_valid(m: Seq<char>) -> bool {
    is_prefix("PF-"@, m) ==> usize_numeral(m.subrange("PF-"@.len() as int, m.len() as int)) is Some
}

/// Whether `method` can be read by `parse_method`.
pub fn method_is_valid(method: &str) -> (b: bool)
    ensures
        b == method_valid(method@),
{
    let prefix = "PF-";
    if starts_with(method, prefix) {
        let start = prefix.unicode_len();
        parse_usize_from(method, start).is_some()
    } else {
        true
    }
}

/// The filter that `method` names.
pub fn parse_method(method: &str) -> (k: Kind)
    requires
        method_valid(method@),
    ensures
        k == method_kind(method@),
{
    let prefix = "PF-";
    if starts_with(method, prefix) {
        let start = prefix.unicode_len();
        let n = parse_usize_from(method, start);
        Kind::PF(n.unwrap())
    } else if str_equal(method, "EKF") {
        Kind::Ekf
    } else {
        Kind::ExactGrid
    }
}

impl Kind {
    /// The number of scalars the filter keeps: the whole grid, a mean and a
    /// variance, or one per particle.
    pub open spec fn retained_scalars_spec(self) -> nat {
        match self {
            Kind::ExactGrid => NGRID as nat,
            Kind::Ekf => 2,
            Kind::PF(n) => n as nat,
        }
    }

    /// The number of particles (0 for the filters without particles).
    pub open spec fn particle_count_spec(self) -> nat {
        match self {
            Kind::PF(n) => n as nat,
            _ => 0,
        }
    }

    /// The number of scalars the filter keeps.
    pub fn retained_scalars(&self) -> (n: usize)
        ensures
            n == self.retained_scalars_spec(),
    {
        match self {
            Kind::ExactGrid => NGRID,
            Kind::Ekf => 2,
            Kind::PF(n) => *n,
        }
    }

    /// The number of particles of the filter.
    pub fn particle_count(&self) -> (n: usize)
        ensures
            n == self.particle_count_spec(),
    {
        match self {
            Kind::PF(n) => *n,
            _ => 0,
        }
    }

    /// The seed of the filter's own generator for the run with seed `seed`:
    /// `seed + 100000 + particles`, so runs of particle filters of different
    /// sizes draw from different streams.
    pub fn filter_seed(&self, seed: u64) -> (s: u64)
        requires
            seed + 100000 + self.particle_count_spec() <= u64::MAX,
        ensures
            s == seed + 100000 + self.particle_count_spec(),
    {
        let n = self.particle_count();
        seed + 100000 + n as u64
    }
}

/// A routing mode of the agentic routing experiment: the persistent belief,
/// a belief rebuilt from the last `w` interactions, or the current cue alone.
#[derive(Clone, Copy, Debug, PartialEq, Eq, Structural)]
pub enum RoutingMode {
    Persistent,
    Window(usize),
    Memoryless,
}

/// The routing mode that a mode name selects, if any.
pub open spec fn routing_mode_spec(m: Seq<char>) -> Option<RoutingMode> {
    if m == "BSD-categorical"@ {
        Some(RoutingMode::Persistent)
    } else if m == "window-2"@ {
        Some(RoutingMode::Window(2))
    } else if m == "window-1"@ {
        Some(RoutingMode::Window(1))
    } else if m == "memoryless-current-cue"@ {
        Some(RoutingMode::Memoryless)
    } else {
        None
    }
}

/// The routing mode named `mode`, or `None` for an unknown name.
pub fn parse_routing_mode(mode: &str) -> (r: Option<RoutingMode>)
    ensures
        r == routing_mode_spec(mode@),
{
    if str_equal(mode, "BSD-categorical") {
        Some(RoutingMode::Persistent)
    } else if str_equal(mode, "window-2") {
        Some(RoutingMode::Window(2))
    } else if str_equal(mode, "window-1") {
        Some(RoutingMode::Window(1))
    } else if str_equal(mode, "memoryless-current-cue") {
        Some(RoutingMode::Memoryless)
    } else {
        None
    }
}

/// A planner of the Tiger benchmark: exact belief, a belief rebuilt from the
/// last `w` observations, or the QMDP rule.
#[derive(Clone, Copy, Debug, PartialEq, Eq, Structural)]
pub enum TigerPlanner {
    Exact,
    Window(usize),
    Qmdp,
}

/// The Tiger planner that a name selects, if any.
pub open spec fn tiger_planner_spec(m: Seq<char>) -> Option<TigerPlanner> {
    if m == "BSD (exact-belief family)"@ {
        Some(TigerPlanner::Exact)
    } else if m == "Finite window W=2"@ {
        Some(TigerPlanner::Window(2))
    } else if m == "Finite window W=1"@ {
        Some(TigerPlanner::Window(1))
    } else if m == "QMDP"@ {
        Some(TigerPlanner::Qmdp)
    } else {
        None
    }
}

/// The Tiger planner named `kind`, or `None` for an unknown name.
pub fn parse_tiger_planner(kind: &str) -> (r: Option<TigerPlanner>)
    ensures
        r == tiger_planner_spec(kind@),
{
    if str_equal(kind, "BSD (exact-belief family)") {
        Some(TigerPlanner::Exact)
    } else if str_equal(kind, "Finite window W=2") {
        Some(TigerPlanner::Window(2))
    } else if str_equal(kind, "Finite window W=1") {
        Some(TigerPlanner::Window(1))
    } else if str_equal(kind, "QMDP") {
        Some(TigerPlanner::Qmdp)
    } else {
        None
    }
}

/// A belief kept by the RockSample rover: particles, a window of readings,
/// the exact factored belief with the QMDP-style rule that never checks, or
/// the exact factored belief.
#[derive(Clone, Copy, Debug, PartialEq, Eq, Structural)]
pub enum RockPlanner {
    Particle,
    Window,
    Qmdp,
    Exact,
}

/// The RockSample planner that a name selects: names beginning with
/// "Particle" keep particles, names beginning with "Finite window" keep a
/// window, "QMDP" never checks, and every other name keeps the exact belief.
pub open spec fn rock_planner_spec(m: Seq<char>) -> RockPlanner {
    if is_prefix("Particle"@, m) {
        RockPlanner::Particle
    } else if is_prefix("Finite window"@, m) {
        RockPlanner::Window
    } else if m == "QMDP"@ {
        RockPlanner::Qmdp
    } else {
        RockPlanner::Exact
    }
}

/// The RockSample planner named `kind`.
pub fn parse_rock_planner(kind: &str) -> (r: RockPlanner)
    ensures
        r == rock_planner_spec(kind@),
{
    if starts_with(kind, "Particle") {
        RockPlanner::Particle
    } else if starts_with(kind, "Finite window") {
        RockPlanner::Window
    } else if str_equal(kind, "QMDP") {
        RockPlanner::Qmdp
    } else {
        RockPlanner::Exact
    }
}

/// The name "PF-" followed by the decimal numeral of `n` is a valid method
/// name and selects a particle filter with `n` particles.
pub proof fn lemma_pf_name_selects_count(n: usize)
    ensures
        method_valid("PF-"@ + decimal_digits(n as nat)),
        method_kind("PF-"@ + decimal_digits(n as nat)) == Kind::PF(n),
{
    let ds = decimal_digits(n as nat);
    let m = "PF-"@ + ds;
    lemma_decimal_round_trip(n as nat);
    assert(m.subrange(0, "PF-"@.len() as int) =~= "PF-"@);
    assert(m.subrange("PF-"@.len() as int, m.len() as int) =~= ds);
    assert(is_digit(ds[0]));
    assert(unsigned_digits(ds) == ds);
}

} // verus!
