//! Spawning a creep: growing its body while the spawn can afford it, and
//! naming it.
use crate::bounded::{parts_as_slice, parts_of};
use crate::creeps::roles::{role_name, spec_basic_parts, spec_scale_parts, Part, Role, SpawnConfig};
use vstd::prelude::*;

verus! {

// ---------------------------------------------------------------------------
// Body
// ---------------------------------------------------------------------------

/// Most parts a creep can have.
pub const MAX_BODY: usize = 50;

/// `basic` followed by `n` copies of `extension`.
pub open spec fn grown_body(basic: Seq<Part>, extension: Seq<Part>, n: nat) -> Seq<Part>
    decreases n,
{
    if n == 0 {
        basic
    } else {
        grown_body(basic, extension, (n - 1) as nat) + extension
    }
}

/// The most parts a grown body may have: `max_len` where it is set and
/// below the most a creep can have, else that most.
pub open spec fn body_limit(max_len: Option<usize>) -> nat {
    match max_len {
        Some(m) => if m < MAX_BODY {
            m as nat
        } else {
            MAX_BODY as nat
        },
        None => MAX_BODY as nat,
    }
}

/// Whether a body of `len` parts may take one more extension of `ext_len`
/// parts without passing its limit.
pub open spec fn extension_fits(len: nat, ext_len: nat, max_len: Option<usize>) -> bool {
    len + ext_len <= body_limit(max_len)
}

/// Outcome of trying a body on the spawn without spawning.
#[derive(Debug, Clone, Copy, PartialEq, Eq, Structural)]
pub enum DryRun {
    /// The spawn could spawn it.
    Affordable,
    /// The spawn lacks the energy for it.
    NotEnough,
    /// Any other refusal.
    Refused,
}

/// Why a creep could not be spawned.
#[derive(Debug, Clone, Copy, PartialEq, Eq, Structural)]
pub enum SpawnError {
    /// A body was refused for another reason than its cost.
    CanNotSpawn,
}

/// The body of a creep being planned: grown by whole extensions while the
/// spawn can afford it and the body stays within its limit.
pub struct BodyPlan {
    basic: Vec<Part>,
    extension: Vec<Part>,
    max_len: Option<usize>,
    body: Vec<Part>,
    grown: usize,
    valid: usize,
    stopped: bool,
}

impl BodyPlan {
    /// The parts the body starts with.
    pub closed spec fn basic(&self) -> Seq<Part> {
        self.basic@
    }

    /// The parts added per step.
    pub closed spec fn extension(&self) -> Seq<Part> {
        self.extension@
    }

    /// The largest body allowed, if any.
    pub closed spec fn max_len(&self) -> Option<usize> {
        self.max_len
    }

    /// Number of steps grown so far.
    pub closed spec fn grown(&self) -> nat {
        self.grown as nat
    }

    /// Number of steps of the largest body the spawn could afford so far.
    pub closed spec fn valid(&self) -> nat {
        self.valid as nat
    }

    /// Whether growing has ended.
    pub closed spec fn stopped(&self) -> bool {
        self.stopped
    }

    /// The body grown so far.
    pub open spec fn body(&self) -> Seq<Part> {
        grown_body(self.basic(), self.extension(), self.grown())
    }

    /// The body to spawn: grown by the steps the spawn could afford.
    pub open spec fn spawn_body(&self) -> Seq<Part> {
        grown_body(self.basic(), self.extension(), self.valid())
    }

    /// The internal invariant.
    pub closed spec fn wf(&self) -> bool {
        &&& self.body@ == grown_body(self.basic@, self.extension@, self.grown as nat)
        &&& self.valid <= self.grown
        &&& self.grown <= self.body@.len()
        &&& self.basic@.len() <= 16
        &&& self.grown > 0 ==> self.body@.len() <= body_limit(self.max_len)
    }

    /// A body grown by some steps stays within its limit, and every body
    /// has at most the most parts a creep can have.
    pub proof fn lemma_within_limit(&self)
        requires
            self.wf(),
        ensures
            self.body().len() <= MAX_BODY,
            self.spawn_body().len() <= self.body().len(),
            self.grown() > 0 ==> self.body().len() <= body_limit(self.max_len()),
            self.valid() > 0 ==> self.spawn_body().len() <= body_limit(self.max_len()),
    {
        lemma_grown_prefix(self.basic@, self.extension@, self.valid as nat, self.grown as nat);
    }

    /// Start from the basic parts of `config`.
    pub fn new(config: &SpawnConfig) -> (p: Self)
        ensures
            p.wf(),
            p.basic() == parts_of(config.basic_body),
            p.extension() == parts_of(config.body_extension),
            p.max_len() == config.body_max,
            p.grown() == 0,
            p.valid() == 0,
            !p.stopped(),
    {
        let basic = to_vec(parts_as_slice(&config.basic_body));
        let extension = to_vec(parts_as_slice(&config.body_extension));
        let body = to_vec(parts_as_slice(&config.basic_body));
        assert(grown_body(basic@, extension@, 0) == basic@);
        BodyPlan {
            basic,
            extension,
            max_len: config.body_max,
            body,
            grown: 0,
            valid: 0,
            stopped: false,
        }
    }

    /// Grow the body by one whole extension if growing has not ended and the
    /// extension fits within the body's limit; `true` when it grew, and the
    /// new body is to be tried on the spawn and the outcome given to
    /// `record`.
    pub fn grow(&mut self) -> (grew: bool)
        requires
            old(self).wf(),
        ensures
            final(self).wf(),
            final(self).basic() == old(self).basic(),
            final(self).extension() == old(self).extension(),
            final(self).max_len() == old(self).max_len(),
            final(self).valid() == old(self).valid(),
            grew == !(old(self).stopped() || old(self).extension().len() == 0 || !extension_fits(
                old(self).body().len(),
                old(self).extension().len(),
                old(self).max_len(),
            )),
            grew ==> final(self).grown() == old(self).grown() + 1 && !final(self).stopped(),
            !grew ==> final(self).grown() == old(self).grown() && final(self).stopped(),
    {
        let len = self.body.len();
        let limit: usize = match self.max_len {
            Some(m) => if m < MAX_BODY {
                m
            } else {
                MAX_BODY
            },
            None => MAX_BODY,
        };
        let fits = len <= limit && self.extension.len() <= limit - len;
        if self.stopped || self.extension.len() == 0 || !fits {
            self.stopped = true;
            return false;
        }
        let ghost before = self.body@;
        let ghost g0 = self.grown;
        let ghost b0 = self.basic@;
        let ghost e0 = self.extension@;
        let ghost v0 = self.valid;
        let ghost m0 = self.max_len;
        let mut i: usize = 0;
        while i < self.extension.len()
            invariant
                self.grown == g0,
                self.basic@ == b0,
                self.extension@ == e0,
                self.valid == v0,
                self.max_len == m0,
                !self.stopped,
                i <= self.extension@.len(),
                self.body@ == before + self.extension@.take(i as int),
            decreases self.extension@.len() - i,
        {
            let part = self.extension[i];
            self.body.push(part);
            assert(self.body@ =~= before + self.extension@.take(i + 1));
            i = i + 1;
        }
        assert(self.extension@.take(self.extension@.len() as int) =~= self.extension@);
        assert(grown_body(b0, e0, (g0 + 1) as nat) == grown_body(b0, e0, g0 as nat) + e0);
        self.grown = self.grown + 1;
        true
    }

    /// Take the outcome of trying the grown body: affordable bodies become
    /// the body to spawn; a body the spawn lacks energy for ends growing;
    /// any other refusal is an error.
    pub fn record(&mut self, outcome: DryRun) -> (r: Result<(), SpawnError>)
        requires
            old(self).wf(),
        ensures
            final(self).wf(),
            final(self).basic() == old(self).basic(),
            final(self).extension() == old(self).extension(),
            final(self).max_len() == old(self).max_len(),
            final(self).grown() == old(self).grown(),
            outcome == DryRun::Affordable ==> r is Ok && final(self).valid() == old(self).grown()
                && final(self).stopped() == old(self).stopped(),
            outcome == DryRun::NotEnough ==> r is Ok && final(self).valid() == old(self).valid()
                && final(self).stopped(),
            outcome == DryRun::Refused ==> r == Err::<(), SpawnError>(SpawnError::CanNotSpawn)
                && final(self).valid() == old(self).valid() && final(self).stopped(),
    {
        match outcome {
            DryRun::Affordable => {
                self.valid = self.grown;
                Ok(())
            },
            DryRun::NotEnough => {
                self.stopped = true;
                Ok(())
            },
            DryRun::Refused => {
                self.stopped = true;
                Err(SpawnError::CanNotSpawn)
            },
        }
    }

    /// The body grown so far, to try on the spawn.
    pub fn current_body(&self) -> (v: Vec<Part>)
        requires
            self.wf(),
        ensures
            v@ == self.body(),
    {
        self.body.clone()
    }

    /// The body to spawn: never more parts than a creep can have, and within
    /// the body's limit once an extension was affordable.
    pub fn body_to_spawn(&self) -> (v: Vec<Part>)
        requires
            self.wf(),
        ensures
            v@ == self.spawn_body(),
            v@.len() <= MAX_BODY,
            self.valid() > 0 ==> v@.len() <= body_limit(self.max_len()),
    {
        proof {
            self.lemma_within_limit();
            lemma_grown_prefix(self.basic@, self.extension@, self.valid as nat, self.grown as nat);
        }
        let n = body_len_at(&self.basic, &self.extension, self.valid);
        slice_prefix(&self.body, n)
    }
}

/// Length of `basic` grown by `n` steps of `extension`.
fn body_len_at(basic: &Vec<Part>, extension: &Vec<Part>, n: usize) -> (len: usize)
    requires
        grown_body(basic@, extension@, n as nat).len() <= MAX_BODY,
    ensures
        len == grown_body(basic@, extension@, n as nat).len(),
{
    proof {
        lemma_grown_len(basic@, extension@, n as nat);
    }
    let mut len = basic.len();
    let mut k: usize = 0;
    while k < n
        invariant
            k <= n,
            basic@.len() + n * extension@.len() <= MAX_BODY,
            len == basic@.len() + k * extension@.len(),
        decreases n - k,
    {
        assert((k + 1) * extension@.len() == k * extension@.len() + extension@.len())
            by (nonlinear_arith);
        assert((k + 1) * extension@.len() <= n * extension@.len()) by (nonlinear_arith)
            requires
                k + 1 <= n,
        ;
        len = len + extension.len();
        k = k + 1;
    }
    len
}

proof fn lemma_grown_len(basic: Seq<Part>, extension: Seq<Part>, n: nat)
    ensures
        grown_body(basic, extension, n).len() == basic.len() + n * extension.len(),
    decreases n,
{
    if n > 0 {
        lemma_grown_len(basic, extension, (n - 1) as nat);
        assert(grown_body(basic, extension, n) == grown_body(basic, extension, (n - 1) as nat) + extension);
        let e = extension.len() as int;
        let m = n as int;
        assert(m * e == (m - 1) * e + e) by (nonlinear_arith);
        assert(((n - 1) as nat) * extension.len() == (m - 1) * e);
        assert(n * extension.len() == m * e);
    } else {
        assert(n * extension.len() == 0) by (nonlinear_arith)
            requires
                n == 0,
        ;
    }
}

/// The body of a creep of `role` grown by `n` size steps.
pub open spec fn role_body(role: Role, n: nat) -> Seq<Part> {
    grown_body(spec_basic_parts(role), spec_scale_parts(role), n)
}

/// A part of the basic body is in every body grown from it.
proof fn lemma_basic_part_kept(basic: Seq<Part>, extension: Seq<Part>, n: nat, part: Part)
    requires
        basic.contains(part),
    ensures
        grown_body(basic, extension, n).contains(part),
{
    lemma_grown_prefix(basic, extension, 0, n);
    let i = choose|i: int| 0 <= i < basic.len() && basic[i] == part;
    let g = grown_body(basic, extension, n);
    assert(g.take(basic.len() as int)[i] == g[i]);
    assert(g[i] == part);
}

/// Growing by no parts leaves the body as it is.
proof fn lemma_grown_by_nothing(basic: Seq<Part>, extension: Seq<Part>, n: nat)
    requires
        extension.len() == 0,
    ensures
        grown_body(basic, extension, n) == basic,
    decreases n,
{
    if n > 0 {
        lemma_grown_by_nothing(basic, extension, (n - 1) as nat);
        assert(basic + extension =~= basic);
    }
}

/// Every body fits the job of its role, at any size: each role but
/// `Unknown` can move; harvesters, upgraders, workers and long range
/// harvesters and workers can work and carry; gofers carry; defenders
/// attack. A conqueror's body is exactly a Move and a Claim part and never
/// grows, so it can always claim a controller; a scout's body is a single
/// Move part. Each size step adds parts of the role's job: a Work part for
/// harvesters, Carry parts for gofers, Attack for defenders, Work and Carry
/// for the other working roles.
pub proof fn law_bodies_fit_their_roles(role: Role, n: nat)
    ensures
        role != Role::Unknown ==> role_body(role, n).contains(Part::Move),
        (role == Role::Harvester || role == Role::Upgrader || role == Role::Worker || role == Role::Lrh
            || role == Role::Lrw) ==> role_body(role, n).contains(Part::Work) && role_body(
            role,
            n,
        ).contains(Part::Carry),
        role == Role::Gofer ==> role_body(role, n).contains(Part::Carry),
        role == Role::Defender ==> role_body(role, n).contains(Part::Attack),
        spec_basic_parts(Role::Conqueror) == seq![Part::Move, Part::Claim],
        role_body(Role::Conqueror, n) == seq![Part::Move, Part::Claim],
        role_body(Role::Scout, n) == seq![Part::Move],
        spec_scale_parts(Role::Harvester) == seq![Part::Work],
        spec_scale_parts(Role::Gofer).contains(Part::Carry),
        spec_scale_parts(Role::Defender).contains(Part::Attack),
        (role == Role::Upgrader || role == Role::Worker || role == Role::Lrh || role == Role::Lrw)
            ==> spec_scale_parts(role).contains(Part::Work) && spec_scale_parts(role).contains(Part::Carry),
{
    let basic = spec_basic_parts(role);
    let ext = spec_scale_parts(role);
    if role != Role::Unknown {
        assert(basic[0] == Part::Move);
        lemma_basic_part_kept(basic, ext, n, Part::Move);
    }
    match role {
        Role::Harvester => {
            assert(basic[1] == Part::Work);
            assert(basic[2] == Part::Carry);
            lemma_basic_part_kept(basic, ext, n, Part::Work);
            lemma_basic_part_kept(basic, ext, n, Part::Carry);
        },
        Role::Upgrader | Role::Worker => {
            assert(basic[1] == Part::Carry);
            assert(basic[2] == Part::Work);
            lemma_basic_part_kept(basic, ext, n, Part::Work);
            lemma_basic_part_kept(basic, ext, n, Part::Carry);
        },
        Role::Lrh | Role::Lrw => {
            assert(basic[2] == Part::Carry);
            assert(basic[3] == Part::Work);
            lemma_basic_part_kept(basic, ext, n, Part::Work);
            lemma_basic_part_kept(basic, ext, n, Part::Carry);
        },
        Role::Gofer => {
            assert(basic[1] == Part::Carry);
            lemma_basic_part_kept(basic, ext, n, Part::Carry);
        },
        Role::Defender => {
            assert(basic[1] == Part::Attack);
            lemma_basic_part_kept(basic, ext, n, Part::Attack);
        },
        _ => {},
    }
    lemma_grown_by_nothing(spec_basic_parts(Role::Conqueror), spec_scale_parts(Role::Conqueror), n);
    lemma_grown_by_nothing(spec_basic_parts(Role::Scout), spec_scale_parts(Role::Scout), n);
    assert(spec_scale_parts(Role::Gofer)[1] == Part::Carry);
    assert(spec_scale_parts(Role::Defender)[0] == Part::Attack);
    assert(spec_scale_parts(Role::Upgrader)[1] == Part::Carry);
    assert(spec_scale_parts(Role::Upgrader)[2] == Part::Work);
    assert(spec_scale_parts(Role::Lrh)[1] == Part::Carry);
    assert(spec_scale_parts(Role::Lrh)[2] == Part::Work);
}

/// A body grown by fewer steps is a prefix of one grown by more.
proof fn lemma_grown_prefix(basic: Seq<Part>, extension: Seq<Part>, m: nat, n: nat)
    requires
        m <= n,
    ensures
        grown_body(basic, extension, n).take(grown_body(basic, extension, m).len() as int)
            == grown_body(basic, extension, m),
        grown_body(basic, extension, m).len() <= grown_body(basic, extension, n).len(),
    decreases n,
{
    if m < n {
        lemma_grown_prefix(basic, extension, m, (n - 1) as nat);
        let a = grown_body(basic, extension, m);
        let b = grown_body(basic, extension, (n - 1) as nat);
        assert((b + extension).take(a.len() as int) =~= b.take(a.len() as int));
    } else {
        assert(grown_body(basic, extension, n).take(grown_body(basic, extension, m).len() as int)
            =~= grown_body(basic, extension, m));
    }
}

fn to_vec(parts: &[Part]) -> (v: Vec<Part>)
    ensures
        v@ == parts@,
{
    let mut v: Vec<Part> = Vec::new();
    let mut i: usize = 0;
    while i < parts.len()
        invariant
            i <= parts@.len(),
            v@ == parts@.take(i as int),
        decreases parts@.len() - i,
    {
        v.push(parts[i]);
        i = i + 1;
        assert(v@ =~= parts@.take(i as int));
    }
    assert(parts@.take(parts@.len() as int) =~= parts@);
    v
}

fn slice_prefix(parts: &Vec<Part>, n: usize) -> (v: Vec<Part>)
    requires
        n <= parts@.len(),
    ensures
        v@ == parts@.take(n as int),
{
    let mut v: Vec<Part> = Vec::new();
    let mut i: usize = 0;
    while i < n
        invariant
            i <= n <= parts@.len(),
            v@ == parts@.take(i as int),
        decreases n - i,
    {
        v.push(parts[i]);
        i = i + 1;
        assert(v@ =~= parts@.take(i as int));
    }
    v
}

// ---------------------------------------------------------------------------
// Names
// ---------------------------------------------------------------------------

/// The lower case hexadecimal digit of value `d`.
pub open spec fn hex_char(d: nat) -> char {
    if d < 10 {
        (48 + d) as char
    } else {
        (87 + d) as char
    }
}

/// Lower case hexadecimal representation of `n`, without leading zeros.
pub open spec fn hex(n: nat) -> Seq<char>
    decreases n,
{
    if n < 16 {
        seq![hex_char(n)]
    } else {
        hex(n / 16).push(hex_char(n % 16))
    }
}

/// `hex(n)` padded with zeros on the left to at least 4 digits.
pub open spec fn hex4(n: nat) -> Seq<char> {
    Seq::new((if hex(n).len() < 4 { 4 - hex(n).len() } else { 0 }) as nat, |i: int| '0') + hex(n)
}

/// The name of a creep of role `role` spawned at tick `time` after
/// `attempt` names were taken: the role's name, `_`, and
/// `time % 10000 + attempt` in hexadecimal, at least 4 digits.
pub open spec fn spawn_name(role: Role, time: u32, attempt: u32) -> Seq<char> {
    role_name(role) + "_"@ + hex4((time % 10000 + attempt) as nat)
}

/// The value of a hexadecimal digit.
pub open spec fn hex_digit_value(c: char) -> int {
    if c <= '9' {
        c as int - 48
    } else {
        c as int - 87
    }
}

/// The value of a string of hexadecimal digits.
pub open spec fn hex_value(s: Seq<char>) -> int
    decreases s.len(),
{
    if s.len() == 0 {
        0
    } else {
        16 * hex_value(s.drop_last()) + hex_digit_value(s.last())
    }
}

proof fn lemma_hex_digit(d: nat)
    requires
        d < 16,
    ensures
        hex_digit_value(hex_char(d)) == d,
{
    if d < 10 {
        assert(((48 + d) as char) as int == 48 + d);
        assert(hex_char(d) <= '9');
    } else {
        assert(((87 + d) as char) as int == 87 + d);
        assert(!(hex_char(d) <= '9'));
    }
}

proof fn lemma_hex_value(n: nat)
    ensures
        hex_value(hex(n)) == n,
    decreases n,
{
    lemma_hex_digit(n % 16);
    if n < 16 {
        assert(hex(n).drop_last() =~= Seq::<char>::empty());
        assert(hex(n).last() == hex_char(n));
        assert(n % 16 == n);
        assert(hex_value(hex(n)) == 16 * hex_value(Seq::<char>::empty()) + hex_digit_value(hex_char(n)));
    } else {
        lemma_hex_value(n / 16);
        assert(hex(n).drop_last() =~= hex(n / 16));
        assert(hex(n).last() == hex_char(n % 16));
        assert(n == 16 * (n / 16) + n % 16);
    }
}

proof fn lemma_leading_zeros(k: nat, s: Seq<char>)
    ensures
        hex_value(Seq::new(k, |i: int| '0') + s) == hex_value(s),
    decreases s.len(), k,
{
    let z = Seq::new(k, |i: int| '0');
    if s.len() == 0 {
        assert(z + s =~= z);
        if k > 0 {
            lemma_leading_zeros((k - 1) as nat, s);
            assert(z.drop_last() =~= Seq::new((k - 1) as nat, |i: int| '0'));
            assert(Seq::new((k - 1) as nat, |i: int| '0') + s =~= Seq::new((k - 1) as nat, |i: int| '0'));
        }
    } else {
        lemma_leading_zeros(k, s.drop_last());
        assert((z + s).drop_last() =~= z + s.drop_last());
    }
}

/// Retrying a spawn under the next attempt's name never reuses a name: the
/// names of two different attempts at one tick differ.
pub proof fn law_each_attempt_names_anew(role: Role, time: u32, a: u32, b: u32)
    requires
        a != b,
    ensures
        spawn_name(role, time, a) != spawn_name(role, time, b),
{
    let x = (time % 10000 + a) as nat;
    let y = (time % 10000 + b) as nat;
    let prefix = role_name(role) + "_"@;
    if spawn_name(role, time, a) == spawn_name(role, time, b) {
        let na = spawn_name(role, time, a);
        let nb = spawn_name(role, time, b);
        assert(na.subrange(prefix.len() as int, na.len() as int) =~= hex4(x));
        assert(nb.subrange(prefix.len() as int, nb.len() as int) =~= hex4(y));
        lemma_hex_value(x);
        lemma_hex_value(y);
        lemma_leading_zeros((if hex(x).len() < 4 { 4 - hex(x).len() } else { 0 }) as nat, hex(x));
        lemma_leading_zeros((if hex(y).len() < 4 { 4 - hex(y).len() } else { 0 }) as nat, hex(y));
        assert(hex_value(hex4(x)) == x);
        assert(hex_value(hex4(y)) == y);
    }
}

proof fn lemma_hex_len(n: nat)
    ensures
        n < 16 ==> hex(n).len() == 1,
        16 <= n < 256 ==> hex(n).len() == 2,
        256 <= n < 4096 ==> hex(n).len() == 3,
        4096 <= n ==> hex(n).len() >= 4,
    decreases n,
{
    if n >= 16 {
        lemma_hex_len(n / 16);
    }
}

fn hex_str(d: u32) -> (s: &'static str)
    requires
        d < 16,
    ensures
        s@ == seq![hex_char(d as nat)],
{
    proof {
        reveal_strlit("0");
        reveal_strlit("1");
        reveal_strlit("2");
        reveal_strlit("3");
        reveal_strlit("4");
        reveal_strlit("5");
        reveal_strlit("6");
        reveal_strlit("7");
        reveal_strlit("8");
        reveal_strlit("9");
        reveal_strlit("a");
        reveal_strlit("b");
        reveal_strlit("c");
        reveal_strlit("d");
        reveal_strlit("e");
        reveal_strlit("f");
    }
    let s = match d {
        0 => "0",
        1 => "1",
        2 => "2",
        3 => "3",
        4 => "4",
        5 => "5",
        6 => "6",
        7 => "7",
        8 => "8",
        9 => "9",
        10 => "a",
        11 => "b",
        12 => "c",
        13 => "d",
        14 => "e",
        _ => "f",
    };
    assert(s@ =~= seq![hex_char(d as nat)]);
    s
}

fn push_hex(out: &mut String, n: u32)
    ensures
        final(out)@ == old(out)@ + hex(n as nat),
    decreases n,
{
    if n >= 16 {
        push_hex(out, n / 16);
    }
    out.append(hex_str(n % 16));
    proof {
        if n >= 16 {
            assert(old(out)@ + hex((n / 16) as nat) + seq![hex_char((n % 16) as nat)] =~= old(out)@
                + hex(n as nat));
        } else {
            assert(hex(n as nat) =~= seq![hex_char(n as nat)]);
        }
    }
}

/// The name of a creep of role `role` spawned at tick `time`, after
/// `attempt` names were already taken.
pub fn creep_name(role: Role, time: u32, attempt: u32) -> (s: String)
    requires
        time % 10000 + attempt <= u32::MAX,
    ensures
        s@ == spawn_name(role, time, attempt),
{
    let n = time % 10000 + attempt;
    let mut s = role.to_string();
    proof {
        reveal_strlit("_");
        reveal_strlit("0");
        lemma_hex_len(n as nat);
    }
    s.append("_");
    let zeros: usize = if n < 16 {
        3
    } else if n < 256 {
        2
    } else if n < 4096 {
        1
    } else {
        0
    };
    let ghost start = s@;
    let mut k: usize = 0;
    while k < zeros
        invariant
            k <= zeros <= 3,
            s@ == start + Seq::new(k as nat, |i: int| '0'),
        decreases zeros - k,
    {
        proof {
            reveal_strlit("0");
        }
        s.append("0");
        k = k + 1;
        assert(s@ =~= start + Seq::new(k as nat, |i: int| '0'));
    }
    push_hex(&mut s, n);
    assert(s@ =~= spawn_name(role, time, attempt));
    s
}

/// What spawning under a name gave.
#[derive(Debug, Clone, Copy, PartialEq, Eq, Structural)]
pub enum SpawnOutcome {
    /// The creep is being spawned.
    Spawned,
    /// Another creep has the name.
    NameExists,
    /// Any other refusal.
    Refused,
}

/// What to do after spawning under the name of attempt `attempt`.
#[derive(Debug, Clone, Copy, PartialEq, Eq, Structural)]
pub enum NameStep {
    /// Record the creep's home and role: it is being spawned.
    Record,
    /// Try again under the name of this attempt.
    Retry(u32),
    /// Give up: the spawn refused.
    Fail,
}

/// The next step of spawning after attempt `attempt` gave `outcome`.
pub fn after_spawn(outcome: SpawnOutcome, attempt: u32) -> (s: NameStep)
    requires
        outcome == SpawnOutcome::NameExists ==> attempt < u32::MAX,
    ensures
        s == match outcome {
            SpawnOutcome::Spawned => NameStep::Record,
            SpawnOutcome::NameExists => NameStep::Retry((attempt + 1) as u32),
            SpawnOutcome::Refused => NameStep::Fail,
        },
{
    match outcome {
        SpawnOutcome::Spawned => NameStep::Record,
        SpawnOutcome::NameExists => NameStep::Retry(attempt + 1),
        SpawnOutcome::Refused => NameStep::Fail,
    }
}

} // verus!
