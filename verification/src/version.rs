//! Kernel release versions: parsing a version string, classifying it
//! (mainline, release candidate, stable queue) and ordering two versions.

use vstd::prelude::*;
use crate::text;

verus! {

/// What a parsed kernel version holds, as mathematical values.
pub struct VersionModel {
    pub components: Seq<u32>,
    pub rc_num: Option<u32>,
    pub is_queue: bool,
    pub is_rc_by_name: bool,
}

/// A kernel version such as `6.12`, `6.12.5`, `6.13-rc3` or `6.11-queue`.
#[derive(Debug, Clone, PartialEq, Eq)]
pub struct KernelVersion {
    /// The dot-separated numbers of the version, in order; pieces that are
    /// not numbers are left out.
    pub components: Vec<u32>,
    /// The number after `-rc`: `Some(0)` for a bare trailing `-rc`, `None`
    /// when there is no `-rc` or what follows it is not a number.
    pub rc_num: Option<u32>,
    /// The version names a stable queue (`-queue`).
    pub is_queue: bool,
    /// The version string contains `-rc`.
    pub is_rc_by_name: bool,
}

impl View for KernelVersion {
    type V = VersionModel;

    open spec fn view(&self) -> VersionModel {
        VersionModel {
            components: self.components@,
            rc_num: self.rc_num,
            is_queue: self.is_queue,
            is_rc_by_name: self.is_rc_by_name,
        }
    }
}

/// The pieces of `s` between dots, as `str::split('.')` yields them.
pub open spec fn dot_pieces(s: Seq<char>) -> Seq<Seq<char>>
    decreases s.len(),
{
    if s.len() == 0 {
        seq![Seq::<char>::empty()]
    } else {
        let prev = dot_pieces(s.drop_last());
        if s.last() == '.' {
            prev.push(Seq::<char>::empty())
        } else {
            prev.update(prev.len() - 1, prev.last().push(s.last()))
        }
    }
}

/// The pieces that parse as `u32`, parsed, in order.
pub open spec fn numbers(pieces: Seq<Seq<char>>) -> Seq<u32>
    decreases pieces.len(),
{
    if pieces.len() == 0 {
        seq![]
    } else {
        let rest = numbers(pieces.drop_last());
        match text::parse_u32(pieces.last()) {
            Some(n) => rest.push(n),
            None => rest,
        }
    }
}

/// The pattern `-rc`.
pub open spec fn rc_marker() -> Seq<char> {
    seq!['-', 'r', 'c']
}

/// The pattern `-queue`.
pub open spec fn queue_marker() -> Seq<char> {
    seq!['-', 'q', 'u', 'e', 'u', 'e']
}

/// The version that the string `s` describes. The part before the first
/// `-rc` (or all of `s`) gives the components; what follows `-rc` gives the
/// release-candidate number.
pub open spec fn parse_version(s: Seq<char>) -> VersionModel {
    let is_queue = text::find(s, queue_marker()) is Some;
    match text::find(s, rc_marker()) {
        Some(i) => VersionModel {
            components: numbers(dot_pieces(s.take(i))),
            rc_num: if i + 3 < s.len() {
                text::parse_u32(s.skip(i + 3))
            } else {
                Some(0)
            },
            is_queue,
            is_rc_by_name: true,
        },
        None => VersionModel {
            components: numbers(dot_pieces(s)),
            rc_num: None,
            is_queue,
            is_rc_by_name: false,
        },
    }
}

impl VersionModel {
    /// A release candidate: it has an `-rc` number or `-rc` in its name.
    pub open spec fn is_rc(self) -> bool {
        self.rc_num is Some || self.is_rc_by_name
    }

    /// A mainline release: `X.Y` (or `2.6.Z`, `2.4.Z` in the old scheme), or
    /// any release candidate; never a stable queue or a version starting at 0.
    pub open spec fn is_mainline(self) -> bool {
        let c = self.components;
        if c.len() == 0 || c[0] == 0 {
            false
        } else if self.is_rc() {
            true
        } else if self.is_queue {
            false
        } else if c.len() >= 3 && c[0] == 2 && (c[1] == 6 || c[1] == 4) {
            c.len() == 3
        } else {
            c.len() == 2
        }
    }

    /// The major version as text: `2.6.Z` in the old scheme, `X.Y` otherwise,
    /// empty for fewer than two components.
    pub open spec fn major_version(self) -> Seq<char> {
        let c = self.components;
        if c.len() == 0 {
            seq![]
        } else if c.len() >= 3 && c[0] == 2 && c[1] == 6 {
            seq!['2', '.', '6', '.'] + text::decimal(c[2] as nat)
        } else if c.len() >= 2 {
            text::decimal(c[0] as nat) + seq!['.'] + text::decimal(c[1] as nat)
        } else {
            seq![]
        }
    }

    /// Both versions have the same, non-empty, major version.
    pub open spec fn major_matches(self, other: VersionModel) -> bool {
        self.major_version().len() != 0 && self.major_version() == other.major_version()
    }
}

} // verus!

verus! {

proof fn lemma_dot_pieces_nonempty(s: Seq<char>)
    ensures
        dot_pieces(s).len() >= 1,
    decreases s.len(),
{
    if s.len() > 0 {
        lemma_dot_pieces_nonempty(s.drop_last());
    }
}

/// The numbers among the dot-separated pieces of `s[0..end]`.
fn components_of(s: &Vec<char>, end: usize) -> (r: Vec<u32>)
    requires
        end <= s.len(),
    ensures
        r@ == numbers(dot_pieces(s@.take(end as int))),
{
    let mut comps: Vec<u32> = Vec::new();
    let mut piece_start: usize = 0;
    let mut i: usize = 0;
    assert(s@.take(0) =~= Seq::<char>::empty());
    while i < end
        invariant
            end <= s.len(),
            piece_start <= i <= end,
            dot_pieces(s@.take(i as int)).last() == s@.subrange(piece_start as int, i as int),
            comps@ == numbers(dot_pieces(s@.take(i as int)).drop_last()),
        decreases end - i,
    {
        let ghost prev = dot_pieces(s@.take(i as int));
        proof {
            lemma_dot_pieces_nonempty(s@.take(i as int));
            assert(s@.take(i + 1).drop_last() =~= s@.take(i as int));
            assert(s@.take(i + 1).last() == s@[i as int]);
        }
        let ghost next = dot_pieces(s@.take(i + 1));
        if s[i] == '.' {
            let parsed = text::parse_u32_range(s, piece_start, i);
            assert(next.drop_last() =~= prev);
            assert(prev.drop_last() =~= prev.subrange(0, prev.len() - 1));
            match parsed {
                Some(n) => {
                    comps.push(n);
                }
                None => {}
            }
            piece_start = i + 1;
            assert(next.last() =~= s@.subrange(piece_start as int, i + 1));
        } else {
            assert(next.last() =~= s@.subrange(piece_start as int, i + 1));
            assert(next.drop_last() =~= prev.drop_last());
        }
        i = i + 1;
    }
    proof {
        lemma_dot_pieces_nonempty(s@.take(end as int));
    }
    let last = text::parse_u32_range(s, piece_start, end);
    match last {
        Some(n) => {
            comps.push(n);
        }
        None => {}
    }
    comps
}

impl KernelVersion {
    /// Parses a version string. Every string gives a version: pieces that are
    /// not numbers are left out of the components.
    pub fn parse(version: &str) -> (v: KernelVersion)
        ensures
            v@ == parse_version(version@),
    {
        let s = text::chars_of(version);
        let queue: Vec<char> = vec!['-', 'q', 'u', 'e', 'u', 'e'];
        let rc: Vec<char> = vec!['-', 'r', 'c'];
        assert(queue@ =~= queue_marker());
        assert(rc@ =~= rc_marker());
        let is_queue = text::find_chars(&s, &queue).is_some();
        match text::find_chars(&s, &rc) {
            Some(i) => {
                proof {
                    text::lemma_find_from_bounds(s@, rc@, 0);
                }
                let rc_num = if i + 3 < s.len() {
                    assert(s@.skip(i + 3) =~= s@.subrange(i + 3, s@.len() as int));
                    text::parse_u32_range(&s, i + 3, s.len())
                } else {
                    Some(0)
                };
                KernelVersion {
                    components: components_of(&s, i),
                    rc_num,
                    is_queue,
                    is_rc_by_name: true,
                }
            },
            None => {
                assert(s@.take(s@.len() as int) =~= s@);
                KernelVersion {
                    components: components_of(&s, s.len()),
                    rc_num: None,
                    is_queue,
                    is_rc_by_name: false,
                }
            },
        }
    }
}

} // verus!

verus! {

/// The outcome of comparing two versions.
#[derive(Debug, Clone, Copy, PartialEq, Eq)]
pub enum Order {
    Less,
    Equal,
    Greater,
}

/// The opposite outcome: what comparing the other way round gives.
pub open spec fn reversed(o: Order) -> Order {
    match o {
        Order::Less => Order::Greater,
        Order::Equal => Order::Equal,
        Order::Greater => Order::Less,
    }
}

/// How two integers compare.
pub open spec fn int_order(x: int, y: int) -> Order {
    if x < y {
        Order::Less
    } else if x > y {
        Order::Greater
    } else {
        Order::Equal
    }
}

/// Component `i` of `c`, or 0 past its end.
pub open spec fn component_at(c: Seq<u32>, i: int) -> int {
    if 0 <= i < c.len() {
        c[i] as int
    } else {
        0
    }
}

/// Lexicographic comparison of the components from index `i` on, the
/// shorter list padded with zeros.
pub open spec fn components_order(a: Seq<u32>, b: Seq<u32>, i: int) -> Order
    decreases a.len() + b.len() - i,
{
    if i < 0 || (i >= a.len() && i >= b.len()) {
        Order::Equal
    } else if component_at(a, i) != component_at(b, i) {
        int_order(component_at(a, i), component_at(b, i))
    } else {
        components_order(a, b, i + 1)
    }
}

/// Comparison of the release-candidate parts: a release candidate comes
/// before the release, and candidates compare by their number.
pub open spec fn rc_order(a: VersionModel, b: VersionModel) -> Order {
    if a.is_rc() && !b.is_rc() {
        Order::Less
    } else if !a.is_rc() && b.is_rc() {
        Order::Greater
    } else if a.is_rc() && b.is_rc() {
        int_order(
            match a.rc_num { Some(n) => n as int, None => 0 },
            match b.rc_num { Some(n) => n as int, None => 0 },
        )
    } else {
        Order::Equal
    }
}

/// How kernel version `a` compares with `b`. Within one major version a
/// mainline release comes before any release that is not mainline; otherwise
/// the components decide, then the release-candidate parts.
pub open spec fn version_order(a: VersionModel, b: VersionModel) -> Order {
    if a.major_matches(b) && a.is_mainline() && !b.is_mainline() {
        Order::Less
    } else if a.major_matches(b) && !a.is_mainline() && b.is_mainline() {
        Order::Greater
    } else {
        match components_order(a.components, b.components, 0) {
            Order::Equal => rc_order(a, b),
            o => o,
        }
    }
}

impl KernelVersion {
    /// A release candidate: it has an `-rc` number or `-rc` in its name.
    pub fn is_rc(&self) -> (r: bool)
        ensures
            r == self@.is_rc(),
    {
        self.rc_num.is_some() || self.is_rc_by_name
    }

    /// A mainline release (see `VersionModel::is_mainline`).
    pub fn is_mainline(&self) -> (r: bool)
        ensures
            r == self@.is_mainline(),
    {
        let c = &self.components;
        if c.len() == 0 || c[0] == 0 {
            return false;
        }
        if self.is_rc() {
            return true;
        }
        if self.is_queue {
            return false;
        }
        if c.len() >= 3 && c[0] == 2 && (c[1] == 6 || c[1] == 4) {
            return c.len() == 3;
        }
        c.len() == 2
    }

    /// The major version as text (see `VersionModel::major_version`).
    pub fn major_version(&self) -> (r: String)
        ensures
            r@ == self@.major_version(),
    {
        let c = &self.components;
        let mut out: Vec<char> = Vec::new();
        if c.len() == 0 {
        } else if c.len() >= 3 && c[0] == 2 && c[1] == 6 {
            out.push('2');
            out.push('.');
            out.push('6');
            out.push('.');
            text::push_decimal(&mut out, c[2] as u64);
        } else if c.len() >= 2 {
            text::push_decimal(&mut out, c[0] as u64);
            out.push('.');
            text::push_decimal(&mut out, c[1] as u64);
        }
        assert(out@ =~= self@.major_version());
        text::string_of(&out)
    }

    /// Both versions have the same, non-empty, major version.
    pub fn major_matches(&self, other: &Self) -> (r: bool)
        ensures
            r == self@.major_matches(other@),
    {
        let mine = self.major_version();
        let theirs = other.major_version();
        !mine.as_str().is_empty() && mine == theirs
    }

    /// How this version compares with `other` (see `version_order`).
    pub fn order(&self, other: &Self) -> (r: Order)
        ensures
            r == version_order(self@, other@),
    {
        if self.major_matches(other) {
            let a = self.is_mainline();
            let b = other.is_mainline();
            if a && !b {
                return Order::Less;
            }
            if !a && b {
                return Order::Greater;
            }
        }
        let n1 = self.components.len();
        let n2 = other.components.len();
        let max_len = if n1 > n2 { n1 } else { n2 };
        let ghost a = self.components@;
        let ghost b = other.components@;
        let mut i: usize = 0;
        while i < max_len
            invariant
                n1 == a.len(),
                n2 == b.len(),
                a == self.components@,
                b == other.components@,
                max_len == if n1 > n2 { n1 } else { n2 },
                i <= max_len,
                components_order(a, b, 0) == components_order(a, b, i as int),
                version_order(self@, other@) == (match components_order(a, b, 0) {
                    Order::Equal => rc_order(self@, other@),
                    o => o,
                }),
            decreases max_len - i,
        {
            let v1: u32 = if i < n1 { self.components[i] } else { 0 };
            let v2: u32 = if i < n2 { other.components[i] } else { 0 };
            assert(v1 == component_at(a, i as int));
            assert(v2 == component_at(b, i as int));
            if v1 < v2 {
                return Order::Less;
            }
            if v1 > v2 {
                return Order::Greater;
            }
            i = i + 1;
        }
        let r1 = self.is_rc();
        let r2 = other.is_rc();
        if r1 && !r2 {
            Order::Less
        } else if !r1 && r2 {
            Order::Greater
        } else if r1 && r2 {
            let x = match self.rc_num { Some(n) => n, None => 0 };
            let y = match other.rc_num { Some(n) => n, None => 0 };
            if x < y {
                Order::Less
            } else if x > y {
                Order::Greater
            } else {
                Order::Equal
            }
        } else {
            Order::Equal
        }
    }
}

proof fn lemma_components_order_reflexive(a: Seq<u32>, i: int)
    ensures
        components_order(a, a, i) == Order::Equal,
    decreases a.len() + a.len() - i,
{
    if !(i < 0 || i >= a.len()) {
        lemma_components_order_reflexive(a, i + 1);
    }
}

proof fn lemma_components_order_antisymmetric(a: Seq<u32>, b: Seq<u32>, i: int)
    ensures
        components_order(a, b, i) == reversed(components_order(b, a, i)),
    decreases a.len() + b.len() - i,
{
    if !(i < 0 || (i >= a.len() && i >= b.len())) && component_at(a, i) == component_at(b, i) {
        lemma_components_order_antisymmetric(a, b, i + 1);
    }
}

/// Every version compares equal to itself.
pub proof fn lemma_version_order_reflexive(a: VersionModel)
    ensures
        version_order(a, a) == Order::Equal,
{
    lemma_components_order_reflexive(a.components, 0);
}

/// Comparing two versions the other way round gives the opposite outcome.
pub proof fn lemma_version_order_antisymmetric(a: VersionModel, b: VersionModel)
    ensures
        version_order(a, b) == reversed(version_order(b, a)),
{
    lemma_components_order_antisymmetric(a.components, b.components, 0);
}

} // verus!

verus! {

/// Whether the version string names a mainline release.
pub fn version_is_mainline(version: &str) -> (r: bool)
    ensures
        r == parse_version(version@).is_mainline(),
{
    KernelVersion::parse(version).is_mainline()
}

/// The major version of a version string (see `VersionModel::major_version`).
pub fn kernel_version_major(version: &str) -> (r: String)
    ensures
        r@ == parse_version(version@).major_version(),
{
    KernelVersion::parse(version).major_version()
}

/// How two version strings compare: equal strings are equal, otherwise the
/// versions they describe decide.
pub open spec fn text_order(a: Seq<char>, b: Seq<char>) -> Order {
    if a == b {
        Order::Equal
    } else {
        version_order(parse_version(a), parse_version(b))
    }
}

/// Whether version `candidate` is contained in a tree at version `target`:
/// an empty or `0` candidate always is; a mainline candidate is when it does
/// not come after the target; any other candidate also needs the target's
/// major version.
pub open spec fn reachable(candidate: Seq<char>, target: Seq<char>) -> bool {
    if candidate.len() == 0 || candidate == seq!['0'] {
        true
    } else if parse_version(candidate).is_mainline() {
        text_order(candidate, target) != Order::Greater
    } else {
        parse_version(candidate).major_version() == parse_version(target).major_version()
            && text_order(candidate, target) != Order::Greater
    }
}

} // verus!

verus! {

/// Comparing two version strings the other way round gives the opposite outcome.
pub proof fn lemma_text_order_antisymmetric(a: Seq<char>, b: Seq<char>)
    ensures
        text_order(a, b) == reversed(text_order(b, a)),
{
    lemma_version_order_antisymmetric(parse_version(a), parse_version(b));
}

/// Every version string is reachable from itself: a release contains its own commits.
pub proof fn lemma_reachable_reflexive(v: Seq<char>)
    ensures
        text_order(v, v) == Order::Equal,
        reachable(v, v),
{
}

} // verus!

verus! {

/// A plain kernel version: `a.b`, `a.b` with an `-rc` part, or a stable
/// release `a.b.x` with `x >= 1`; with `a >= 3` and no `-queue`.
pub open spec fn is_plain(m: VersionModel) -> bool {
    let c = m.components;
    &&& !m.is_queue
    &&& c.len() >= 2
    &&& c[0] >= 3
    &&& (c.len() == 2 || (c.len() == 3 && c[2] >= 1 && !m.is_rc()))
}

/// Where a plain version stands within its major version: release
/// candidates first, then the release, then its stable releases.
pub open spec fn plain_kind(m: VersionModel) -> int {
    if m.components.len() == 3 {
        2
    } else if m.is_rc() {
        0
    } else {
        1
    }
}

/// The number that orders plain versions of one kind within a major
/// version: the `-rc` number, or the stable release number.
pub open spec fn plain_number(m: VersionModel) -> int {
    if m.components.len() == 3 {
        m.components[2] as int
    } else if m.is_rc() {
        match m.rc_num {
            Some(n) => n as int,
            None => 0,
        }
    } else {
        0
    }
}

/// How plain versions compare: by major, by minor, then by kind and number.
pub open spec fn plain_order(a: VersionModel, b: VersionModel) -> Order {
    let ca = a.components;
    let cb = b.components;
    if ca[0] != cb[0] {
        int_order(ca[0] as int, cb[0] as int)
    } else if ca[1] != cb[1] {
        int_order(ca[1] as int, cb[1] as int)
    } else if plain_kind(a) != plain_kind(b) {
        int_order(plain_kind(a), plain_kind(b))
    } else {
        int_order(plain_number(a), plain_number(b))
    }
}

proof fn lemma_digits_dot_split(d1: Seq<char>, e1: Seq<char>, d2: Seq<char>, e2: Seq<char>)
    requires
        text::all_digits(d1),
        text::all_digits(d2),
        d1 + seq!['.'] + e1 == d2 + seq!['.'] + e2,
    ensures
        d1 == d2,
        e1 == e2,
{
    let s1 = d1 + seq!['.'] + e1;
    let s2 = d2 + seq!['.'] + e2;
    if d1.len() < d2.len() {
        assert(s1[d1.len() as int] == '.');
        assert(s2[d1.len() as int] == d2[d1.len() as int]);
        assert(text::is_digit(d2[d1.len() as int]));
    } else if d2.len() < d1.len() {
        assert(s2[d2.len() as int] == '.');
        assert(s1[d2.len() as int] == d1[d2.len() as int]);
        assert(text::is_digit(d1[d2.len() as int]));
    }
    assert(d1 =~= s1.take(d1.len() as int));
    assert(d2 =~= s2.take(d2.len() as int));
    assert(e1 =~= s1.skip(d1.len() as int + 1));
    assert(e2 =~= s2.skip(d2.len() as int + 1));
}

/// Two plain versions have the same major version exactly when their first
/// two components agree.
proof fn lemma_plain_major(a: VersionModel, b: VersionModel)
    requires
        is_plain(a),
        is_plain(b),
    ensures
        a.major_matches(b) <==> (a.components[0] == b.components[0] && a.components[1]
            == b.components[1]),
{
    let ca = a.components;
    let cb = b.components;
    text::lemma_decimal(ca[0] as nat);
    text::lemma_decimal(ca[1] as nat);
    text::lemma_decimal(cb[0] as nat);
    text::lemma_decimal(cb[1] as nat);
    assert(a.major_version() == text::decimal(ca[0] as nat) + seq!['.'] + text::decimal(
        ca[1] as nat,
    ));
    assert(b.major_version() == text::decimal(cb[0] as nat) + seq!['.'] + text::decimal(
        cb[1] as nat,
    ));
    if a.major_version() == b.major_version() {
        lemma_digits_dot_split(
            text::decimal(ca[0] as nat),
            text::decimal(ca[1] as nat),
            text::decimal(cb[0] as nat),
            text::decimal(cb[1] as nat),
        );
        text::lemma_decimal_injective(ca[0] as nat, cb[0] as nat);
        text::lemma_decimal_injective(ca[1] as nat, cb[1] as nat);
    }
}

/// On plain versions the version order is `plain_order`.
pub proof fn lemma_plain_version_order(a: VersionModel, b: VersionModel)
    requires
        is_plain(a),
        is_plain(b),
    ensures
        version_order(a, b) == plain_order(a, b),
{
    lemma_plain_major(a, b);
    let ca = a.components;
    let cb = b.components;
    assert(component_at(ca, 0) == ca[0] as int);
    assert(component_at(cb, 0) == cb[0] as int);
    assert(component_at(ca, 1) == ca[1] as int);
    assert(component_at(cb, 1) == cb[1] as int);
    if ca[0] == cb[0] {
        assert(components_order(ca, cb, 0) == components_order(ca, cb, 1));
        if ca[1] == cb[1] {
            assert(components_order(ca, cb, 1) == components_order(ca, cb, 2));
            assert(component_at(ca, 2) == if ca.len() == 3 { ca[2] as int } else { 0 });
            assert(component_at(cb, 2) == if cb.len() == 3 { cb[2] as int } else { 0 });
            if component_at(ca, 2) == component_at(cb, 2) {
                assert(components_order(ca, cb, 2) == components_order(ca, cb, 3));
                assert(components_order(ca, cb, 3) == Order::Equal);
            }
        }
    }
}

/// Order on plain versions is transitive: if `a` does not come after `b`
/// and `b` does not come after `c`, then `a` does not come after `c`.
pub proof fn lemma_version_order_transitive(a: VersionModel, b: VersionModel, c: VersionModel)
    requires
        is_plain(a),
        is_plain(b),
        is_plain(c),
        version_order(a, b) != Order::Greater,
        version_order(b, c) != Order::Greater,
    ensures
        version_order(a, c) != Order::Greater,
{
    lemma_plain_version_order(a, b);
    lemma_plain_version_order(b, c);
    lemma_plain_version_order(a, c);
}

/// A commit contained in release `t1` stays contained in every later plain
/// release `t2` that it can reach: a mainline commit in every later release,
/// any other commit in every later release of the same major version.
pub proof fn lemma_reachable_later(c: Seq<char>, t1: Seq<char>, t2: Seq<char>)
    requires
        is_plain(parse_version(c)),
        is_plain(parse_version(t1)),
        is_plain(parse_version(t2)),
        reachable(c, t1),
        text_order(t1, t2) != Order::Greater,
        parse_version(c).is_mainline() || parse_version(t1).major_version() == parse_version(
            t2,
        ).major_version(),
    ensures
        reachable(c, t2),
{
    let pc = parse_version(c);
    let p1 = parse_version(t1);
    let p2 = parse_version(t2);
    lemma_version_order_reflexive(pc);
    lemma_version_order_reflexive(p1);
    assert(text_order(c, t1) == version_order(pc, p1));
    assert(text_order(t1, t2) == version_order(p1, p2));
    assert(text_order(c, t2) == version_order(pc, p2));
    if !(c.len() == 0 || c == seq!['0']) {
        lemma_version_order_transitive(pc, p1, p2);
    }
}

} // verus!

verus! {

proof fn lemma_old_scheme_major_differs(x: nat, p: nat, q: nat)
    ensures
        seq!['2', '.', '6', '.'] + text::decimal(x) != text::decimal(p) + seq!['.']
            + text::decimal(q),
{
    text::lemma_decimal(x);
    text::lemma_decimal(p);
    text::lemma_decimal(q);
    let d = text::decimal(x);
    if seq!['2', '.', '6', '.'] + d == text::decimal(p) + seq!['.'] + text::decimal(q) {
        assert(text::is_digit('2'));
        assert(text::all_digits(seq!['2']));
        assert(seq!['2', '.', '6', '.'] + d =~= seq!['2'] + seq!['.'] + (seq!['6', '.'] + d));
        lemma_digits_dot_split(
            seq!['2'],
            seq!['6', '.'] + d,
            text::decimal(p),
            text::decimal(q),
        );
        assert(text::decimal(q)[1] == '.');
        assert(text::is_digit(text::decimal(q)[1]));
    }
}

/// Two versions of the same major version agree on their first two
/// components.
pub proof fn lemma_same_major_same_prefix(a: VersionModel, b: VersionModel)
    requires
        a.major_matches(b),
    ensures
        a.components.len() >= 2,
        b.components.len() >= 2,
        a.components[0] == b.components[0],
        a.components[1] == b.components[1],
{
    let ca = a.components;
    let cb = b.components;
    let old_a = ca.len() >= 3 && ca[0] == 2 && ca[1] == 6;
    let old_b = cb.len() >= 3 && cb[0] == 2 && cb[1] == 6;
    if old_a && !old_b {
        lemma_old_scheme_major_differs(ca[2] as nat, cb[0] as nat, cb[1] as nat);
    } else if old_b && !old_a {
        lemma_old_scheme_major_differs(cb[2] as nat, ca[0] as nat, ca[1] as nat);
    } else if !old_a && !old_b {
        text::lemma_decimal(ca[0] as nat);
        text::lemma_decimal(ca[1] as nat);
        text::lemma_decimal(cb[0] as nat);
        text::lemma_decimal(cb[1] as nat);
        lemma_digits_dot_split(
            text::decimal(ca[0] as nat),
            text::decimal(ca[1] as nat),
            text::decimal(cb[0] as nat),
            text::decimal(cb[1] as nat),
        );
        text::lemma_decimal_injective(ca[0] as nat, cb[0] as nat);
        text::lemma_decimal_injective(ca[1] as nat, cb[1] as nat);
    }
}

/// Versions whose first components differ (zero-padded) are ordered by
/// them, and otherwise versions whose second components differ are ordered
/// by those: `2.6.Z` comes before `3.0`, `5.15.y` before `6.1`, for every
/// kind of version.
pub proof fn lemma_order_by_leading_components(a: VersionModel, b: VersionModel)
    ensures
        component_at(a.components, 0) < component_at(b.components, 0) ==> version_order(a, b)
            == Order::Less,
        component_at(a.components, 0) > component_at(b.components, 0) ==> version_order(a, b)
            == Order::Greater,
        component_at(a.components, 0) == component_at(b.components, 0) && component_at(
            a.components,
            1,
        ) < component_at(b.components, 1) ==> version_order(a, b) == Order::Less,
        component_at(a.components, 0) == component_at(b.components, 0) && component_at(
            a.components,
            1,
        ) > component_at(b.components, 1) ==> version_order(a, b) == Order::Greater,
{
    if a.major_matches(b) {
        lemma_same_major_same_prefix(a, b);
    }
    let ca = a.components;
    let cb = b.components;
    if component_at(ca, 0) == component_at(cb, 0) {
        assert(components_order(ca, cb, 0) == components_order(ca, cb, 1));
    }
}

/// Which versions are mainline: any release candidate, a release `X.Y`,
/// and in the old numbering a release `2.6.Z` or `2.4.Z` (never with a
/// first component 0); a stable queue or a stable release is not.
pub proof fn lemma_mainline_kinds(m: VersionModel)
    ensures
        m.components.len() > 0 && m.components[0] != 0 && m.is_rc() ==> m.is_mainline(),
        m.components.len() == 2 && m.components[0] != 0 && !m.is_queue ==> m.is_mainline(),
        m.components.len() == 3 && m.components[0] == 2 && (m.components[1] == 6
            || m.components[1] == 4) && !m.is_queue ==> m.is_mainline(),
        m.components.len() == 3 && m.components[0] != 2 && !m.is_rc() ==> !m.is_mainline(),
        m.is_queue && !m.is_rc() ==> !m.is_mainline(),
        m.components.len() == 0 || m.components[0] == 0 ==> !m.is_mainline(),
{
}

/// A mainline commit is contained in every release it does not come after.
pub proof fn lemma_mainline_reachable(c: Seq<char>, t: Seq<char>)
    requires
        parse_version(c).is_mainline(),
        text_order(c, t) != Order::Greater,
    ensures
        reachable(c, t),
{
}

/// A mainline commit of an older first version number (such as a `2.6.Z`
/// release candidate against a `6.Y.Z` release) is contained in the target.
pub proof fn lemma_older_mainline_reachable(c: Seq<char>, t: Seq<char>)
    requires
        parse_version(c).is_mainline(),
        component_at(parse_version(c).components, 0) < component_at(
            parse_version(t).components,
            0,
        ),
    ensures
        reachable(c, t),
{
    lemma_order_by_leading_components(parse_version(c), parse_version(t));
}

} // verus!

verus! {

proof fn lemma_components_order_equal(a: Seq<u32>, i: int)
    requires
        0 <= i,
    ensures
        components_order(a, a, i) == Order::Equal,
    decreases a.len() + a.len() - i,
{
    if !(i >= a.len()) {
        lemma_components_order_equal(a, i + 1);
    }
}

/// With the same components, a release candidate comes before the
/// release, and release candidates come in the order of their numbers.
pub proof fn lemma_release_candidates_first(a: VersionModel, b: VersionModel)
    requires
        a.components == b.components,
    ensures
        a.is_rc() && !b.is_rc() ==> version_order(a, b) == Order::Less,
        a.rc_num matches Some(n) && b.rc_num matches Some(m) && n < m ==> version_order(a, b)
            == Order::Less,
{
    lemma_components_order_equal(a.components, 0);
}

/// Within one major version a mainline release comes before every release
/// that is not mainline.
pub proof fn lemma_mainline_first_in_major(a: VersionModel, b: VersionModel)
    requires
        a.major_matches(b),
        a.is_mainline(),
        !b.is_mainline(),
    ensures
        version_order(a, b) == Order::Less,
        version_order(b, a) == Order::Greater,
{
    lemma_version_order_antisymmetric(a, b);
}

/// A commit of a release that comes after the target is not contained in
/// it (unless its release is unknown: empty or `0`).
pub proof fn lemma_later_not_reachable(c: Seq<char>, t: Seq<char>)
    requires
        c.len() != 0,
        c != seq!['0'],
        text_order(c, t) == Order::Greater,
    ensures
        !reachable(c, t),
{
}

/// A commit that is not mainline (a stable or queue release) is contained
/// only in releases of its own major version.
pub proof fn lemma_stable_stays_in_major(c: Seq<char>, t: Seq<char>)
    requires
        c.len() != 0,
        c != seq!['0'],
        !parse_version(c).is_mainline(),
        parse_version(c).major_version() != parse_version(t).major_version(),
    ensures
        !reachable(c, t),
{
}

} // verus!
