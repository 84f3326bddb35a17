use vstd::prelude::*;

verus! {

/// How a sprite is shaded.
#[derive(Debug, Clone, Copy, PartialEq, Eq, Structural)]
pub enum MaterialKind {
    Default,
    Lit,
    NumMaterials,
}

/// The number of a material, as the shaders see it.
pub open spec fn material_index(m: MaterialKind) -> i32 {
    match m {
        MaterialKind::Default => 0,
        MaterialKind::Lit => 1,
        MaterialKind::NumMaterials => 2,
    }
}

impl From<MaterialKind> for i32 {
    fn from(m: MaterialKind) -> (r: i32) {
        match m {
            MaterialKind::Default => 0,
            MaterialKind::Lit => 1,
            MaterialKind::NumMaterials => 2,
        }
    }
}

impl vstd::std_specs::convert::FromSpecImpl<MaterialKind> for i32 {
    open spec fn obeys_from_spec() -> bool {
        true
    }

    open spec fn from_spec(m: MaterialKind) -> i32 {
        material_index(m)
    }
}

/// The shader text substitutions that give each material its number: one
/// pair (name, number) per material, in material order.
pub fn shader_replacements() -> (r: Vec<(&'static str, &'static str)>)
    ensures
        r@.len() == 2,
        r@[0].0@ == "DEFAULT_MATERIAL"@,
        r@[0].1@ == "0"@,
        r@[1].0@ == "LIT_MATERIAL"@,
        r@[1].1@ == "1"@,
{
    let mut ret: Vec<(&'static str, &'static str)> = Vec::new();
    let num: i32 = i32::from(MaterialKind::NumMaterials);
    let mut i: i32 = 0;
    while i < num
        invariant
            num == 2,
            0 <= i <= num,
            ret@.len() == i,
            i > 0 ==> ret@[0].0@ == "DEFAULT_MATERIAL"@ && ret@[0].1@ == "0"@,
            i > 1 ==> ret@[1].0@ == "LIT_MATERIAL"@ && ret@[1].1@ == "1"@,
        decreases num - i,
    {
        let variant = if i == 0 {
            MaterialKind::Default
        } else {
            MaterialKind::Lit
        };
        ret.push(
            match variant {
                MaterialKind::Default => ("DEFAULT_MATERIAL", "0"),
                MaterialKind::Lit => ("LIT_MATERIAL", "1"),
                MaterialKind::NumMaterials => ("", ""),
            },
        );
        i += 1;
    }
    ret
}

/// The screen to switch to.
#[derive(Debug, Clone, Copy, PartialEq, Eq, Structural)]
pub enum NextScreen {
    Game,
    Menu,
    InGameMenu,
    Quit,
}


/// A release number.
#[derive(Debug, Clone, Copy, PartialEq, Eq, Structural)]
pub struct Version {
    pub major: u64,
    pub minor: u64,
    pub patch: u64,
}

/// What `semver::Version::parse` makes of `text`: the major, minor and patch
/// numbers of the version it reads, or nothing when `text` is no valid version.
pub uninterp spec fn semver_parse(text: Seq<char>) -> Option<(u64, u64, u64)>;

/// Reads a version with `semver::Version::parse`. Trusted: the result carries
/// the major, minor and patch numbers that the parser reads (`semver_parse`),
/// and is `None` exactly when the parser refuses the text.
#[verifier::external_body]
fn parse_semver(text: &str) -> (r: Option<Version>)
    ensures
        match r {
            Some(v) => semver_parse(text@) == Some((v.major, v.minor, v.patch)),
            None => semver_parse(text@) is None,
        },
{
    match semver::Version::parse(text) {
        Ok(v) => Some(Version { major: v.major, minor: v.minor, patch: v.patch }),
        Err(_) => None,
    }
}

/// Saved options are read only when written by a release with the same major
/// and minor number.
pub open spec fn spec_versions_compatible(current: Version, saved: Option<Version>) -> bool {
    match saved {
        Some(v) => v.major == current.major && v.minor == current.minor,
        None => false,
    }
}

/// Whether options saved by release `saved` (if known) can be read by release
/// `current`.
pub fn versions_compatible(current: Version, saved: Option<Version>) -> (r: bool)
    ensures
        r == spec_versions_compatible(current, saved),
{
    match saved {
        Some(v) => v.major == current.major && v.minor == current.minor,
        None => false,
    }
}

/// Whether options saved by release `saved` can be read by the program whose
/// version is written `current_text`; `None` when that text is no version.
pub fn options_compatible(current_text: &str, saved: Option<Version>) -> (r: Option<bool>)
    ensures
        match semver_parse(current_text@) {
            None => r is None,
            Some((major, minor, patch)) => r == Some(
                spec_versions_compatible(Version { major, minor, patch }, saved),
            ),
        },
{
    match parse_semver(current_text) {
        Some(current) => Some(versions_compatible(current, saved)),
        None => None,
    }
}

/// `base` to the power `k`.
pub open spec fn power(base: int, k: nat) -> int
    decreases k,
{
    if k == 0 {
        1
    } else {
        base * power(base, (k - 1) as nat)
    }
}

/// The smallest `k` with `base` to the `k` at least `m`, i.e. the base-`base`
/// logarithm of `m` rounded up.
pub open spec fn is_ceil_log(base: int, m: int, k: int) -> bool {
    &&& 0 <= k
    &&& power(base, k as nat) >= m
    &&& k == 0 || power(base, (k - 1) as nat) < m
}

/// The smallest `k` with `base` to the `k` at least `m`.
fn ceil_log(base: u128, m: u128) -> (k: u32)
    requires
        2 <= base <= 16,
        1 <= m <= u64::MAX as u128 * 2,
    ensures
        is_ceil_log(base as int, m as int, k as int),
        k <= 70,
{
    let mut k: u32 = 0;
    let mut p: u128 = 1;
    assert(power(2, 70) == 0x400000000000000000int) by {
        reveal_with_fuel(power, 71);
    }
    while p < m
        invariant
            2 <= base <= 16,
            1 <= m <= u64::MAX as u128 * 2,
            p == power(base as int, k as nat),
            1 <= p,
            k == 0 || power(base as int, (k - 1) as nat) < m,
            power(2, k as nat) <= p,
            k <= 70,
            power(2, 70) == 0x400000000000000000int,
        decreases 70 - k,
    {
        assert(p * base <= u64::MAX as u128 * 32) by (nonlinear_arith)
            requires
                p < m,
                m <= u64::MAX as u128 * 2,
                base <= 16,
        ;
        assert(p * base >= 2 * p) by (nonlinear_arith)
            requires
                1 <= p,
                2 <= base,
        ;
        if k == 70 {
            assert(false);
        }
        let ghost old_p = p;
        p = p * base;
        k = k + 1;
        assert(power(base as int, k as nat) == base * power(base as int, (k - 1) as nat));
        assert(power(2, k as nat) == 2 * power(2, (k - 1) as nat));
        assert(p == base * power(base as int, (k - 1) as nat)) by (nonlinear_arith)
            requires
                p == power(base as int, (k - 1) as nat) * base,
        ;
    }
    k
}


proof fn lemma_power_monotone(base: int, a: nat, b: nat)
    requires
        1 <= base,
        a <= b,
    ensures
        1 <= power(base, a) <= power(base, b),
    decreases b,
{
    if a < b {
        lemma_power_monotone(base, a, (b - 1) as nat);
        assert(power(base, b) == base * power(base, (b - 1) as nat));
        assert(base * power(base, (b - 1) as nat) >= power(base, (b - 1) as nat)) by (nonlinear_arith)
            requires
                1 <= base,
                1 <= power(base, (b - 1) as nat),
        ;
    } else if b > 0 {
        lemma_power_monotone(base, (b - 1) as nat, (b - 1) as nat);
        assert(power(base, b) == base * power(base, (b - 1) as nat));
        assert(base * power(base, (b - 1) as nat) >= 1) by (nonlinear_arith)
            requires
                1 <= base,
                1 <= power(base, (b - 1) as nat),
        ;
    }
}

/// The buffer work of the lighting pass: a jump-flood distance field over two
/// ping-pong buffers, then radiance cascades over two more.
pub struct LightPassPlan {
    /// The jump-flood passes: (source buffer, target buffer, jump distance).
    pub jfa_passes: Vec<(usize, usize, u32)>,
    /// The buffer that holds the distance field after the last pass.
    pub jfa_result: usize,
    /// The cascades in drawing order: (source buffer, target buffer, cascade index).
    pub cascades: Vec<(usize, usize, i32)>,
    /// How many cascades there are.
    pub num_cascades: i32,
    /// The buffer that holds the light after the last cascade.
    pub result: usize,
}

/// Plans the lighting pass for a `width` by `height` buffer. There are as many
/// jump-flood passes as the base-2 logarithm of the longer side, rounded up,
/// alternating between the two buffers, with jump distances halving down to
/// one; there is one more cascade than the base-4 logarithm of the diagonal
/// (rounded up), drawn from the highest cascade index down to 0.
pub fn light_pass_plan(width: u32, height: u32) -> (r: LightPassPlan)
    requires
        0 < width || 0 < height,
    ensures
        is_ceil_log(2, if width >= height { width as int } else { height as int }, r.jfa_passes@.len() as int),
        forall|i: int|
            0 <= i < r.jfa_passes@.len() ==> #[trigger] r.jfa_passes@[i] == (
                (i % 2) as usize,
                (1 - i % 2) as usize,
                power(2, (r.jfa_passes@.len() - i - 1) as nat) as u32,
            ),
        r.jfa_result == r.jfa_passes@.len() % 2,
        is_ceil_log(16, width * width + height * height, r.num_cascades - 1),
        r.cascades@.len() == r.num_cascades,
        forall|t: int|
            0 <= t < r.num_cascades ==> #[trigger] r.cascades@[t] == (
                ((r.num_cascades - 1 - t) % 2) as usize,
                (1 - (r.num_cascades - 1 - t) % 2) as usize,
                (r.num_cascades - 1 - t) as i32,
            ),
        r.result == 1,
{
    let m: u128 = if width >= height {
        width as u128
    } else {
        height as u128
    };
    let passes = ceil_log(2, m);
    proof {
        if passes > 32 {
            lemma_power_monotone(2, 32, (passes - 1) as nat);
            assert(power(2, 32) == 0x100000000int) by {
                reveal_with_fuel(power, 33);
            }
        }
    }
    let mut top: u64 = 1;
    let mut j: u32 = 1;
    while j < passes
        invariant
            1 <= j,
            passes <= 32,
            j <= passes || passes == 0,
            top == power(2, (j - 1) as nat),
            top <= 0x80000000,
        decreases passes - j,
    {
        proof {
            lemma_power_monotone(2, j as nat, 31);
            assert(power(2, 31) == 0x80000000int) by {
                reveal_with_fuel(power, 32);
            }
            assert(power(2, j as nat) == 2 * power(2, (j - 1) as nat));
        }
        top = top * 2;
        j = j + 1;
    }
    let mut jfa_passes: Vec<(usize, usize, u32)> = Vec::new();
    let mut off: u64 = top;
    let mut i: u32 = 0;
    while i < passes
        invariant
            passes <= 32,
            i <= passes,
            jfa_passes@.len() == i,
            i < passes ==> off == power(2, (passes - i - 1) as nat),
            off <= 0x80000000,
            passes > 0 ==> top == power(2, (passes - 1) as nat),
            forall|k: int|
                0 <= k < i ==> #[trigger] jfa_passes@[k] == (
                    (k % 2) as usize,
                    (1 - k % 2) as usize,
                    power(2, (passes - k - 1) as nat) as u32,
                ),
        decreases passes - i,
    {
        let src = (i % 2) as usize;
        let dst = (1 - i % 2) as usize;
        jfa_passes.push((src, dst, off as u32));
        proof {
            if i + 1 < passes {
                assert(power(2, (passes - i - 1) as nat) == 2 * power(2, (passes - i - 2) as nat));
            }
        }
        off = off / 2;
        i = i + 1;
    }
    let jfa_result = (passes % 2) as usize;

    let w2: u128 = width as u128;
    let h2: u128 = height as u128;
    assert(w2 * w2 <= 0xffff_ffff_ffff_ffff && h2 * h2 <= 0xffff_ffff_ffff_ffff) by (nonlinear_arith)
        requires
            w2 <= 0xffff_ffff,
            h2 <= 0xffff_ffff,
            0 <= w2,
            0 <= h2,
    ;
    let d: u128 = w2 * w2 + h2 * h2;
    assert(d <= u64::MAX as u128 * 2) by (nonlinear_arith)
        requires
            d == w2 * w2 + h2 * h2,
            w2 * w2 <= 0xffff_ffff_ffff_ffff,
            h2 * h2 <= 0xffff_ffff_ffff_ffff,
    ;
    assert(1 <= d) by (nonlinear_arith)
        requires
            d == w2 * w2 + h2 * h2,
            0 < w2 || 0 < h2,
            0 <= w2,
            0 <= h2,
    ;
    let num_cascades: i32 = (ceil_log(16, d) + 1) as i32;
    let mut cascades: Vec<(usize, usize, i32)> = Vec::new();
    let mut t: i32 = 0;
    while t < num_cascades
        invariant
            1 <= num_cascades <= 71,
            0 <= t <= num_cascades,
            cascades@.len() == t,
            forall|k: int|
                0 <= k < t ==> #[trigger] cascades@[k] == (
                    ((num_cascades - 1 - k) % 2) as usize,
                    (1 - (num_cascades - 1 - k) % 2) as usize,
                    (num_cascades - 1 - k) as i32,
                ),
        decreases num_cascades - t,
    {
        let i = num_cascades - 1 - t;
        cascades.push(((i % 2) as usize, (1 - i % 2) as usize, i));
        t = t + 1;
    }
    let last_idx: usize = 0;
    LightPassPlan { jfa_passes, jfa_result, cascades, num_cascades, result: 1 - last_idx % 2 }
}


/// A release can always read the options that it saved itself.
pub proof fn law_own_options_compatible(v: Version)
    ensures
        spec_versions_compatible(v, Some(v)),
{
}

} // verus!
