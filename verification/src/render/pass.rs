//! Render passes: what each stage clears and how it uses the depth buffer,
//! and the order in which pass groups run.
use vstd::prelude::*;
use crate::ranking::{key_before, stable_order, stable_sort_indices};
use crate::gl;

verus! {

/// Kind of rendering pass, in the order passes are grouped.
#[derive(Clone, Copy, Debug, PartialEq, Eq, Hash, PartialOrd, Ord, Structural)]
pub enum PassType {
    /// Opaque geometry (depth-tested, back-face culled).
    Opaque,
    /// Transparent geometry (sorted by depth, blended).
    Transparent,
    /// Skybox (depth-tested but not written).
    Skybox,
    /// UI (viewport-local, no depth test).
    UI,
    /// Shadow map (depth only).
    Shadow,
    /// Full-screen post-processing (no depth).
    PostProcess,
}

impl PassType {
    /// Position of the pass type in the grouping order.
    pub open spec fn rank(self) -> int {
        match self {
            PassType::Opaque => 0,
            PassType::Transparent => 1,
            PassType::Skybox => 2,
            PassType::UI => 3,
            PassType::Shadow => 4,
            PassType::PostProcess => 5,
        }
    }

    fn rank_exec(&self) -> (r: u8)
        ensures
            r == self.rank(),
    {
        match self {
            PassType::Opaque => 0,
            PassType::Transparent => 1,
            PassType::Skybox => 2,
            PassType::UI => 3,
            PassType::Shadow => 4,
            PassType::PostProcess => 5,
        }
    }
}

/// The pass types in declaration order.
pub open spec fn pass_types() -> Seq<PassType> {
    seq![
        PassType::Opaque,
        PassType::Transparent,
        PassType::Skybox,
        PassType::UI,
        PassType::Shadow,
        PassType::PostProcess,
    ]
}

/// Passes are grouped in the order their types are declared: opaque
/// geometry, then transparent geometry, the skybox, the UI, shadow maps and
/// post-processing. The `i`-th declared type has rank `i`, so no two types
/// share a rank and a type declared earlier always sorts first.
pub proof fn law_rank_is_declaration_order()
    ensures
        forall|i: int| 0 <= i < 6 ==> (#[trigger] pass_types()[i]).rank() == i,
        forall|i: int, j: int|
            0 <= i < j < 6 ==> (#[trigger] pass_types()[i]).rank() < (#[trigger] pass_types()[j]).rank(),
        forall|a: PassType, b: PassType| a.rank() == b.rank() ==> a == b,
        forall|t: PassType| 0 <= #[trigger] t.rank() < 6,
{
}

/// Which buffers a pass clears.
#[derive(Clone, Copy, Debug, PartialEq, Eq, Structural)]
pub struct ClearFlags {
    pub color: bool,
    pub depth: bool,
    pub stencil: bool,
}

impl ClearFlags {
    /// The GL clear mask these flags select.
    pub open spec fn gl_bits(self) -> u32 {
        ((if self.color { gl::COLOR_BUFFER_BIT as int } else { 0 }) + (if self.depth {
            gl::DEPTH_BUFFER_BIT as int
        } else {
            0
        }) + (if self.stencil { gl::STENCIL_BUFFER_BIT as int } else { 0 })) as u32
    }

    /// Clears nothing.
    pub fn none() -> (r: Self)
        ensures
            r == (ClearFlags { color: false, depth: false, stencil: false }),
    {
        Self { color: false, depth: false, stencil: false }
    }

    /// Clears colour and depth.
    pub fn color_and_depth() -> (r: Self)
        ensures
            r == (ClearFlags { color: true, depth: true, stencil: false }),
    {
        Self { color: true, depth: true, stencil: false }
    }

    /// Clears depth only.
    pub fn depth_only() -> (r: Self)
        ensures
            r == (ClearFlags { color: false, depth: true, stencil: false }),
    {
        Self { color: false, depth: true, stencil: false }
    }

    /// Clears colour, depth and stencil.
    pub fn all() -> (r: Self)
        ensures
            r == (ClearFlags { color: true, depth: true, stencil: true }),
    {
        Self { color: true, depth: true, stencil: true }
    }

    /// The mask to hand to `glClear`.
    pub fn to_gl_bits(&self) -> (r: u32)
        ensures
            r == self.gl_bits(),
    {
        let c: u32 = if self.color { gl::COLOR_BUFFER_BIT } else { 0 };
        let d: u32 = if self.depth { gl::DEPTH_BUFFER_BIT } else { 0 };
        let s: u32 = if self.stencil { gl::STENCIL_BUFFER_BIT } else { 0 };
        let bits = c | d | s;
        assert(bits == c + d + s) by (bit_vector)
            requires
                c == 0x4000u32 || c == 0u32,
                d == 0x100u32 || d == 0u32,
                s == 0x400u32 || s == 0u32,
                bits == c | d | s,
        ;
        bits
    }
}

/// The depth, clear and viewport settings of a pass (its clear colour, a
/// float colour, is kept by the caller; `sky_clear_color` says whether the
/// pass starts from the default sky grey).
#[derive(Clone, Copy, Debug)]
pub struct PassSettings {
    pub pass_type: PassType,
    pub clear_flags: ClearFlags,
    pub viewport: Option<(i32, i32, i32, i32)>,
    pub depth_write: bool,
    pub depth_test: bool,
    pub sky_clear_color: bool,
}

/// The default settings of each pass type.
pub open spec fn default_settings(t: PassType) -> PassSettings {
    let none = ClearFlags { color: false, depth: false, stencil: false };
    match t {
        PassType::Opaque => PassSettings {
            pass_type: t,
            clear_flags: none,
            viewport: None,
            depth_write: true,
            depth_test: true,
            sky_clear_color: false,
        },
        PassType::Transparent => PassSettings {
            pass_type: t,
            clear_flags: none,
            viewport: None,
            depth_write: false,
            depth_test: true,
            sky_clear_color: false,
        },
        PassType::Skybox => PassSettings {
            pass_type: t,
            clear_flags: ClearFlags { color: true, depth: true, stencil: false },
            viewport: None,
            depth_write: false,
            depth_test: true,
            sky_clear_color: true,
        },
        PassType::UI => PassSettings {
            pass_type: t,
            clear_flags: none,
            viewport: None,
            depth_write: false,
            depth_test: false,
            sky_clear_color: false,
        },
        PassType::Shadow => PassSettings {
            pass_type: t,
            clear_flags: ClearFlags { color: false, depth: true, stencil: false },
            viewport: None,
            depth_write: true,
            depth_test: true,
            sky_clear_color: false,
        },
        PassType::PostProcess => PassSettings {
            pass_type: t,
            clear_flags: none,
            viewport: None,
            depth_write: false,
            depth_test: false,
            sky_clear_color: false,
        },
    }
}

impl PassSettings {
    /// The default settings for `pass_type`: only the skybox pass clears
    /// colour (to the sky grey) and depth, the shadow pass clears depth, and
    /// opaque and shadow passes write depth; UI and post-processing do not
    /// test depth.
    pub fn new(pass_type: PassType) -> (r: Self)
        ensures
            r == default_settings(pass_type),
    {
        match pass_type {
            PassType::Opaque => Self {
                pass_type,
                clear_flags: ClearFlags::none(),
                viewport: None,
                depth_write: true,
                depth_test: true,
                sky_clear_color: false,
            },
            PassType::Transparent => Self {
                pass_type,
                clear_flags: ClearFlags::none(),
                viewport: None,
                depth_write: false,
                depth_test: true,
                sky_clear_color: false,
            },
            PassType::Skybox => Self {
                pass_type,
                clear_flags: ClearFlags::color_and_depth(),
                viewport: None,
                depth_write: false,
                depth_test: true,
                sky_clear_color: true,
            },
            PassType::UI => Self {
                pass_type,
                clear_flags: ClearFlags::none(),
                viewport: None,
                depth_write: false,
                depth_test: false,
                sky_clear_color: false,
            },
            PassType::Shadow => Self {
                pass_type,
                clear_flags: ClearFlags::depth_only(),
                viewport: None,
                depth_write: true,
                depth_test: true,
                sky_clear_color: false,
            },
            PassType::PostProcess => Self {
                pass_type,
                clear_flags: ClearFlags::none(),
                viewport: None,
                depth_write: false,
                depth_test: false,
                sky_clear_color: false,
            },
        }
    }

    /// A caller-given clear colour: colour clearing is switched on and the
    /// sky grey no longer applies.
    pub fn with_clear_color(self) -> (r: Self)
        ensures
            r == (PassSettings {
                clear_flags: ClearFlags { color: true, ..self.clear_flags },
                sky_clear_color: false,
                ..self
            }),
    {
        let mut s = self;
        s.clear_flags.color = true;
        s.sky_clear_color = false;
        s
    }

    /// Restricts the pass to the viewport `(x, y, w, h)`.
    pub fn with_viewport(self, x: i32, y: i32, w: i32, h: i32) -> (r: Self)
        ensures
            r == (PassSettings { viewport: Some((x, y, w, h)), ..self }),
    {
        let mut s = self;
        s.viewport = Some((x, y, w, h));
        s
    }

    /// Replaces the clear flags.
    pub fn with_clear_flags(self, flags: ClearFlags) -> (r: Self)
        ensures
            r == (PassSettings { clear_flags: flags, ..self }),
    {
        let mut s = self;
        s.clear_flags = flags;
        s
    }

    /// The viewport to set: the pass's own, or the full `width` x `height`
    /// framebuffer.
    pub fn effective_viewport(&self, width: i32, height: i32) -> (r: (i32, i32, i32, i32))
        ensures
            r == (match self.viewport {
                Some(v) => v,
                None => (0i32, 0i32, width, height),
            }),
    {
        match self.viewport {
            Some(v) => v,
            None => (0, 0, width, height),
        }
    }

    /// Whether the pass clears anything at all.
    pub fn clears_anything(&self) -> (r: bool)
        ensures
            r == (self.clear_flags.color || self.clear_flags.depth || self.clear_flags.stencil),
    {
        self.clear_flags.color || self.clear_flags.depth || self.clear_flags.stencil
    }
}

/// A batch of draws of one pass type. Pass groups compare by pass type
/// first, then by index; `sort_pass_groups` orders them by pass type alone
/// and keeps groups of one type in their order.
#[derive(Clone, Copy, Debug, PartialEq, Eq, PartialOrd, Ord, Structural)]
pub struct PassGroup {
    pub pass_type: PassType,
    pub index: u32,
}

/// `s` is in pass-type order.
pub open spec fn sorted_by_pass(s: Seq<PassGroup>) -> bool {
    forall|i: int, j: int|
        #![trigger s[i], s[j]]
        0 <= i <= j < s.len() ==> s[i].pass_type.rank() <= s[j].pass_type.rank()
}

/// Pass-type rank of each group.
pub open spec fn pass_keys(s: Seq<PassGroup>) -> Seq<u64> {
    s.map_values(|g: PassGroup| g.pass_type.rank() as u64)
}

/// Sorts pass groups by pass type; groups of the same type keep their
/// order.
pub fn sort_pass_groups(v: &mut Vec<PassGroup>)
    ensures
        exists|ix: Seq<usize>|
            stable_order(pass_keys(old(v)@), ix) && final(v)@ == ix.map_values(
                |i: usize| old(v)@[i as int],
            ),
        sorted_by_pass(final(v)@),
        final(v)@.len() == old(v)@.len(),
{
    let n = v.len();
    let mut keys: Vec<u64> = Vec::new();
    for i in 0..n
        invariant
            n == v@.len(),
            keys@.len() == i,
            forall|k: int| 0 <= k < i ==> keys@[k] == (#[trigger] v@[k]).pass_type.rank() as u64,
    {
        keys.push(v[i].pass_type.rank_exec() as u64);
    }
    assert(keys@ =~= pass_keys(v@));
    let ix = stable_sort_indices(&keys);
    let mut out: Vec<PassGroup> = Vec::new();
    for t in 0..n
        invariant
            n == v@.len(),
            stable_order(keys@, ix@),
            keys@.len() == n,
            out@.len() == t,
            forall|k: int| 0 <= k < t ==> out@[k] == v@[(#[trigger] ix@[k]) as int],
    {
        out.push(v[ix[t]]);
    }
    proof {
        let old_v = v@;
        assert(out@ =~= ix@.map_values(|i: usize| old_v[i as int]));
        assert forall|a: int, b: int| 0 <= a <= b < out@.len() implies #[trigger] out@[a].pass_type.rank()
            <= #[trigger] out@[b].pass_type.rank() by {
            if a < b {
                assert(key_before(keys@, ix@[a] as int, ix@[b] as int));
            }
            assert(out@[a] == old_v[ix@[a] as int]);
            assert(out@[b] == old_v[ix@[b] as int]);
            assert(keys@[ix@[a] as int] == old_v[ix@[a] as int].pass_type.rank() as u64);
            assert(keys@[ix@[b] as int] == old_v[ix@[b] as int].pass_type.rank() as u64);
        }
    }
    *v = out;
}

/// The renderer's passes in running order: opaque (group 1), skybox
/// (group 0), UI (group 2).
pub fn default_pass_order() -> (r: Vec<PassGroup>)
    ensures
        r@ == seq![
            PassGroup { pass_type: PassType::Opaque, index: 1 },
            PassGroup { pass_type: PassType::Skybox, index: 0 },
            PassGroup { pass_type: PassType::UI, index: 2 },
        ],
{
    let mut passes: Vec<PassGroup> = Vec::new();
    passes.push(PassGroup { pass_type: PassType::Skybox, index: 0 });
    passes.push(PassGroup { pass_type: PassType::Opaque, index: 1 });
    passes.push(PassGroup { pass_type: PassType::UI, index: 2 });
    let ghost before = passes@;
    assert(before =~= seq![
        PassGroup { pass_type: PassType::Skybox, index: 0 },
        PassGroup { pass_type: PassType::Opaque, index: 1 },
        PassGroup { pass_type: PassType::UI, index: 2 },
    ]);
    sort_pass_groups(&mut passes);
    proof {
        let ix = choose|ix: Seq<usize>|
            stable_order(pass_keys(before), ix) && passes@ == ix.map_values(|i: usize| before[i as int]);
        lemma_three_sorted(before, passes@, ix);
    }
    passes
}

proof fn lemma_three_sorted(before: Seq<PassGroup>, after: Seq<PassGroup>, ix: Seq<usize>)
    requires
        before == seq![
            PassGroup { pass_type: PassType::Skybox, index: 0 },
            PassGroup { pass_type: PassType::Opaque, index: 1 },
            PassGroup { pass_type: PassType::UI, index: 2 },
        ],
        stable_order(pass_keys(before), ix),
        after == ix.map_values(|i: usize| before[i as int]),
    ensures
        after == seq![
            PassGroup { pass_type: PassType::Opaque, index: 1 },
            PassGroup { pass_type: PassType::Skybox, index: 0 },
            PassGroup { pass_type: PassType::UI, index: 2 },
        ],
{
    let keys = pass_keys(before);
    assert(keys[0] == 2 && keys[1] == 0 && keys[2] == 3);
    assert(keys.len() == 3);
    assert(ix.contains(0int as usize) && ix.contains(1int as usize) && ix.contains(2int as usize));
    let p0 = choose|k: int| 0 <= k < ix.len() && ix[k] == 0usize;
    let p1 = choose|k: int| 0 <= k < ix.len() && ix[k] == 1usize;
    let p2 = choose|k: int| 0 <= k < ix.len() && ix[k] == 2usize;
    assert(p1 < p0) by {
        if p0 < p1 {
            assert(key_before(keys, ix[p0] as int, ix[p1] as int));
        }
    }
    assert(p0 < p2) by {
        if p2 < p0 {
            assert(key_before(keys, ix[p2] as int, ix[p0] as int));
        }
    }
    assert(p1 == 0 && p0 == 1 && p2 == 2);
    assert(after =~= seq![
        PassGroup { pass_type: PassType::Opaque, index: 1 },
        PassGroup { pass_type: PassType::Skybox, index: 0 },
        PassGroup { pass_type: PassType::UI, index: 2 },
    ]);
}

} // verus!
