//! Pipeline state objects and their cache.
use vstd::prelude::*;
use std::collections::HashMap;
use std::collections::hash_map::DefaultHasher;
use std::hash::Hasher;
use vstd::std_specs::hash::DefaultHasherAdditionalSpecFns;
use crate::gl;

verus! {

/// Identifier of a pipeline state: the state's hash.
#[derive(Debug, Clone, Copy, PartialEq, Eq, Hash, Structural)]
pub struct PipelineStateId(pub u64);

impl From<u64> for PipelineStateId {
    fn from(value: u64) -> (r: Self) {
        PipelineStateId(value)
    }
}

impl vstd::std_specs::convert::FromSpecImpl<u64> for PipelineStateId {
    open spec fn obeys_from_spec() -> bool {
        true
    }

    open spec fn from_spec(v: u64) -> Self {
        PipelineStateId(v)
    }
}

/// Face culling mode.
#[derive(Debug, Clone, Copy, PartialEq, Eq, Hash, Structural)]
pub enum CullMode {
    Disabled,
    Front,
    Back,
}

/// Depth comparison function.
#[derive(Debug, Clone, Copy, PartialEq, Eq, Hash, Structural)]
pub enum DepthFunc {
    Never,
    Less,
    Equal,
    LessOrEqual,
    Greater,
    NotEqual,
    GreaterOrEqual,
    Always,
}

/// Blend factor for alpha blending.
#[derive(Debug, Clone, Copy, PartialEq, Eq, Hash, Structural)]
pub enum BlendFactor {
    Zero,
    One,
    SrcColor,
    OneMinusSrcColor,
    DstColor,
    OneMinusDstColor,
    SrcAlpha,
    OneMinusSrcAlpha,
    DstAlpha,
    OneMinusDstAlpha,
}

/// The OpenGL pipeline state a draw needs.
#[derive(Debug, Clone, Copy, PartialEq, Eq, Structural)]
pub struct PipelineState {
    pub shader_id: u32,
    pub cull_mode: CullMode,
    pub depth_test: bool,
    pub depth_write: bool,
    pub depth_func: DepthFunc,
    pub blend_enabled: bool,
    pub src_factor: BlendFactor,
    pub dst_factor: BlendFactor,
}

impl CullMode {
    /// Declaration index, the value its derived `Hash` feeds the hasher.
    pub open spec fn discriminant(self) -> u64 {
        match self {
            CullMode::Disabled => 0,
            CullMode::Front => 1,
            CullMode::Back => 2,
        }
    }
}

impl DepthFunc {
    /// Declaration index, the value its derived `Hash` feeds the hasher.
    pub open spec fn discriminant(self) -> u64 {
        match self {
            DepthFunc::Never => 0,
            DepthFunc::Less => 1,
            DepthFunc::Equal => 2,
            DepthFunc::LessOrEqual => 3,
            DepthFunc::Greater => 4,
            DepthFunc::NotEqual => 5,
            DepthFunc::GreaterOrEqual => 6,
            DepthFunc::Always => 7,
        }
    }

    /// The matching GL depth function.
    pub open spec fn gl_value(self) -> u32 {
        match self {
            DepthFunc::Never => gl::NEVER,
            DepthFunc::Less => gl::LESS,
            DepthFunc::Equal => gl::EQUAL,
            DepthFunc::LessOrEqual => gl::LEQUAL,
            DepthFunc::Greater => gl::GREATER,
            DepthFunc::NotEqual => gl::NOTEQUAL,
            DepthFunc::GreaterOrEqual => gl::GEQUAL,
            DepthFunc::Always => gl::ALWAYS,
        }
    }

    /// The matching GL depth function.
    pub fn to_glow(&self) -> (r: u32)
        ensures
            r == self.gl_value(),
    {
        match self {
            DepthFunc::Never => gl::NEVER,
            DepthFunc::Less => gl::LESS,
            DepthFunc::Equal => gl::EQUAL,
            DepthFunc::LessOrEqual => gl::LEQUAL,
            DepthFunc::Greater => gl::GREATER,
            DepthFunc::NotEqual => gl::NOTEQUAL,
            DepthFunc::GreaterOrEqual => gl::GEQUAL,
            DepthFunc::Always => gl::ALWAYS,
        }
    }

    fn discriminant_exec(&self) -> (r: u64)
        ensures
            r == self.discriminant(),
    {
        match self {
            DepthFunc::Never => 0,
            DepthFunc::Less => 1,
            DepthFunc::Equal => 2,
            DepthFunc::LessOrEqual => 3,
            DepthFunc::Greater => 4,
            DepthFunc::NotEqual => 5,
            DepthFunc::GreaterOrEqual => 6,
            DepthFunc::Always => 7,
        }
    }
}

impl BlendFactor {
    /// Declaration index, the value its derived `Hash` feeds the hasher.
    pub open spec fn discriminant(self) -> u64 {
        match self {
            BlendFactor::Zero => 0,
            BlendFactor::One => 1,
            BlendFactor::SrcColor => 2,
            BlendFactor::OneMinusSrcColor => 3,
            BlendFactor::DstColor => 4,
            BlendFactor::OneMinusDstColor => 5,
            BlendFactor::SrcAlpha => 6,
            BlendFactor::OneMinusSrcAlpha => 7,
            BlendFactor::DstAlpha => 8,
            BlendFactor::OneMinusDstAlpha => 9,
        }
    }

    /// The matching GL blend factor.
    pub open spec fn gl_value(self) -> u32 {
        match self {
            BlendFactor::Zero => gl::ZERO,
            BlendFactor::One => gl::ONE,
            BlendFactor::SrcColor => gl::SRC_COLOR,
            BlendFactor::OneMinusSrcColor => gl::ONE_MINUS_SRC_COLOR,
            BlendFactor::DstColor => gl::DST_COLOR,
            BlendFactor::OneMinusDstColor => gl::ONE_MINUS_DST_COLOR,
            BlendFactor::SrcAlpha => gl::SRC_ALPHA,
            BlendFactor::OneMinusSrcAlpha => gl::ONE_MINUS_SRC_ALPHA,
            BlendFactor::DstAlpha => gl::DST_ALPHA,
            BlendFactor::OneMinusDstAlpha => gl::ONE_MINUS_DST_ALPHA,
        }
    }

    /// The matching GL blend factor.
    pub fn to_glow(&self) -> (r: u32)
        ensures
            r == self.gl_value(),
    {
        match self {
            BlendFactor::Zero => gl::ZERO,
            BlendFactor::One => gl::ONE,
            BlendFactor::SrcColor => gl::SRC_COLOR,
            BlendFactor::OneMinusSrcColor => gl::ONE_MINUS_SRC_COLOR,
            BlendFactor::DstColor => gl::DST_COLOR,
            BlendFactor::OneMinusDstColor => gl::ONE_MINUS_DST_COLOR,
            BlendFactor::SrcAlpha => gl::SRC_ALPHA,
            BlendFactor::OneMinusSrcAlpha => gl::ONE_MINUS_SRC_ALPHA,
            BlendFactor::DstAlpha => gl::DST_ALPHA,
            BlendFactor::OneMinusDstAlpha => gl::ONE_MINUS_DST_ALPHA,
        }
    }

    fn discriminant_exec(&self) -> (r: u64)
        ensures
            r == self.discriminant(),
    {
        match self {
            BlendFactor::Zero => 0,
            BlendFactor::One => 1,
            BlendFactor::SrcColor => 2,
            BlendFactor::OneMinusSrcColor => 3,
            BlendFactor::DstColor => 4,
            BlendFactor::OneMinusDstColor => 5,
            BlendFactor::SrcAlpha => 6,
            BlendFactor::OneMinusSrcAlpha => 7,
            BlendFactor::DstAlpha => 8,
            BlendFactor::OneMinusDstAlpha => 9,
        }
    }
}

fn cull_discriminant(c: CullMode) -> (r: u64)
    ensures
        r == c.discriminant(),
{
    match c {
        CullMode::Disabled => 0,
        CullMode::Front => 1,
        CullMode::Back => 2,
    }
}

/// One byte for a `bool`, as `Hash` writes it.
pub open spec fn bool_bytes(b: bool) -> Seq<u8> {
    seq![if b { 1u8 } else { 0u8 }]
}

fn bool_to_bytes(b: bool) -> (r: Vec<u8>)
    ensures
        r@ == bool_bytes(b),
{
    let mut v: Vec<u8> = Vec::new();
    v.push(if b { 1u8 } else { 0u8 });
    v
}

impl PipelineState {
    /// The byte strings hashing this state writes, field by field in
    /// declaration order: the shader id as 4 little-endian bytes, each enum
    /// as its declaration index in 8 little-endian bytes, each flag as one
    /// byte.
    pub open spec fn hash_input(self) -> Seq<Seq<u8>> {
        seq![
            vstd::bytes::spec_u32_to_le_bytes(self.shader_id),
            vstd::bytes::spec_u64_to_le_bytes(self.cull_mode.discriminant()),
            bool_bytes(self.depth_test),
            bool_bytes(self.depth_write),
            vstd::bytes::spec_u64_to_le_bytes(self.depth_func.discriminant()),
            bool_bytes(self.blend_enabled),
            vstd::bytes::spec_u64_to_le_bytes(self.src_factor.discriminant()),
            vstd::bytes::spec_u64_to_le_bytes(self.dst_factor.discriminant()),
        ]
    }

    /// The state's hash: `DefaultHasher` fed `hash_input`.
    pub open spec fn spec_hash(self) -> u64 {
        DefaultHasher::spec_finish(self.hash_input())
    }

    /// State for opaque 3D geometry: back faces culled, depth tested and
    /// written with `Less`, no blending.
    pub fn default_opaque(shader_id: u32) -> (r: Self)
        ensures
            r == (PipelineState {
                shader_id,
                cull_mode: CullMode::Back,
                depth_test: true,
                depth_write: true,
                depth_func: DepthFunc::Less,
                blend_enabled: false,
                src_factor: BlendFactor::One,
                dst_factor: BlendFactor::Zero,
            }),
    {
        Self {
            shader_id,
            cull_mode: CullMode::Back,
            depth_test: true,
            depth_write: true,
            depth_func: DepthFunc::Less,
            blend_enabled: false,
            src_factor: BlendFactor::One,
            dst_factor: BlendFactor::Zero,
        }
    }

    /// State for UI and transparent geometry: no culling, depth tested but
    /// not written, standard alpha blending.
    pub fn default_alpha(shader_id: u32) -> (r: Self)
        ensures
            r == (PipelineState {
                shader_id,
                cull_mode: CullMode::Disabled,
                depth_test: true,
                depth_write: false,
                depth_func: DepthFunc::Less,
                blend_enabled: true,
                src_factor: BlendFactor::SrcAlpha,
                dst_factor: BlendFactor::OneMinusSrcAlpha,
            }),
    {
        Self {
            shader_id,
            cull_mode: CullMode::Disabled,
            depth_test: true,
            depth_write: false,
            depth_func: DepthFunc::Less,
            blend_enabled: true,
            src_factor: BlendFactor::SrcAlpha,
            dst_factor: BlendFactor::OneMinusSrcAlpha,
        }
    }

    /// Hash of the state, used as its cache key.
    pub fn hash(&self) -> (r: u64)
        ensures
            r == self.spec_hash(),
    {
        let mut hasher = DefaultHasher::new();
        let b0 = vstd::bytes::u32_to_le_bytes(self.shader_id);
        hasher.write(b0.as_slice());
        let b1 = vstd::bytes::u64_to_le_bytes(cull_discriminant(self.cull_mode));
        hasher.write(b1.as_slice());
        let b2 = bool_to_bytes(self.depth_test);
        hasher.write(b2.as_slice());
        let b3 = bool_to_bytes(self.depth_write);
        hasher.write(b3.as_slice());
        let b4 = vstd::bytes::u64_to_le_bytes(self.depth_func.discriminant_exec());
        hasher.write(b4.as_slice());
        let b5 = bool_to_bytes(self.blend_enabled);
        hasher.write(b5.as_slice());
        let b6 = vstd::bytes::u64_to_le_bytes(self.src_factor.discriminant_exec());
        hasher.write(b6.as_slice());
        let b7 = vstd::bytes::u64_to_le_bytes(self.dst_factor.discriminant_exec());
        hasher.write(b7.as_slice());
        proof {
            assert(hasher@ =~= self.hash_input());
        }
        hasher.finish()
    }
}

/// Pipeline states by hash; the id of a state is its hash, so identical
/// states share one entry.
pub struct PipelineCache {
    states: HashMap<u64, PipelineState>,
}

impl PipelineCache {
    /// The registered states by hash.
    pub closed spec fn states(&self) -> Map<u64, PipelineState> {
        self.states@
    }

    /// An empty cache.
    pub fn new() -> (r: Self)
        ensures
            r.states() == Map::<u64, PipelineState>::empty(),
    {
        Self { states: HashMap::new() }
    }

    /// Registers `state` under its hash and returns that hash as its id; a
    /// state already registered under the same hash is kept.
    pub fn register(&mut self, state: PipelineState) -> (r: PipelineStateId)
        ensures
            r.0 == state.spec_hash(),
            final(self).states() == (if old(self).states().contains_key(state.spec_hash()) {
                old(self).states()
            } else {
                old(self).states().insert(state.spec_hash(), state)
            }),
    {
        let h = state.hash();
        if !self.states.contains_key(&h) {
            self.states.insert(h, state);
        }
        PipelineStateId(h)
    }

    /// The state registered under `hash`.
    pub fn get(&self, hash: u64) -> (r: Option<&PipelineState>)
        ensures
            r == (if self.states().contains_key(hash) {
                Some(&self.states()[hash])
            } else {
                None
            }),
    {
        self.states.get(&hash)
    }

    /// The state registered under `id`.
    pub fn get_by_id(&self, id: PipelineStateId) -> (r: Option<&PipelineState>)
        ensures
            r == (if self.states().contains_key(id.0) {
                Some(&self.states()[id.0])
            } else {
                None
            }),
    {
        self.states.get(&id.0)
    }
}

impl Default for PipelineCache {
    fn default() -> (r: Self)
        ensures
            r.states() == Map::<u64, PipelineState>::empty(),
    {
        Self::new()
    }
}

/// The cull modes in declaration order.
pub open spec fn cull_modes() -> Seq<CullMode> {
    seq![CullMode::Disabled, CullMode::Front, CullMode::Back]
}

/// The depth functions in declaration order.
pub open spec fn depth_funcs() -> Seq<DepthFunc> {
    seq![
        DepthFunc::Never,
        DepthFunc::Less,
        DepthFunc::Equal,
        DepthFunc::LessOrEqual,
        DepthFunc::Greater,
        DepthFunc::NotEqual,
        DepthFunc::GreaterOrEqual,
        DepthFunc::Always,
    ]
}

/// The blend factors in declaration order.
pub open spec fn blend_factors() -> Seq<BlendFactor> {
    seq![
        BlendFactor::Zero,
        BlendFactor::One,
        BlendFactor::SrcColor,
        BlendFactor::OneMinusSrcColor,
        BlendFactor::DstColor,
        BlendFactor::OneMinusDstColor,
        BlendFactor::SrcAlpha,
        BlendFactor::OneMinusSrcAlpha,
        BlendFactor::DstAlpha,
        BlendFactor::OneMinusDstAlpha,
    ]
}

/// Each enum feeds the hasher its declaration index, as the derived `Hash`
/// does: the `i`-th variant feeds `i`, so different variants feed different
/// values.
pub proof fn law_discriminants_are_declaration_indices()
    ensures
        forall|i: int| 0 <= i < 3 ==> (#[trigger] cull_modes()[i]).discriminant() == i,
        forall|i: int| 0 <= i < 8 ==> (#[trigger] depth_funcs()[i]).discriminant() == i,
        forall|i: int| 0 <= i < 10 ==> (#[trigger] blend_factors()[i]).discriminant() == i,
        forall|a: CullMode, b: CullMode| a.discriminant() == b.discriminant() ==> a == b,
        forall|a: DepthFunc, b: DepthFunc| a.discriminant() == b.discriminant() ==> a == b,
        forall|a: BlendFactor, b: BlendFactor| a.discriminant() == b.discriminant() ==> a == b,
{
}

/// GL numbers the depth functions in the same order as `DepthFunc`:
/// `to_glow` gives `NEVER` plus the declaration index, so different depth
/// functions map to different GL values. Different blend factors map to
/// different GL values too.
pub proof fn law_gl_values_distinct(a: DepthFunc, b: DepthFunc, x: BlendFactor, y: BlendFactor)
    ensures
        a.gl_value() == gl::NEVER + a.discriminant(),
        a.gl_value() == b.gl_value() ==> a == b,
        x.gl_value() == y.gl_value() ==> x == y,
{
}

/// The hash input tells states apart: two pipeline states feed the hasher
/// the same bytes exactly when they are equal, so states that differ in any
/// field (the depth function alone, say) are hashed from different input.
pub proof fn law_hash_input_distinguishes(a: PipelineState, b: PipelineState)
    ensures
        a.hash_input() == b.hash_input() <==> a == b,
{
    if a.hash_input() == b.hash_input() {
        vstd::bytes::lemma_auto_spec_u32_to_from_le_bytes();
        vstd::bytes::lemma_auto_spec_u64_to_from_le_bytes();
        let ia = a.hash_input();
        let ib = b.hash_input();
        assert(ia[0] == ib[0]);
        assert(ia[1] == ib[1]);
        assert(ia[2] == ib[2]);
        assert(ia[3] == ib[3]);
        assert(ia[4] == ib[4]);
        assert(ia[5] == ib[5]);
        assert(ia[6] == ib[6]);
        assert(ia[7] == ib[7]);
        assert(vstd::bytes::spec_u32_to_le_bytes(a.shader_id).len() == 4);
        assert(vstd::bytes::spec_u32_to_le_bytes(b.shader_id).len() == 4);
        assert(vstd::bytes::spec_u32_from_le_bytes(ia[0]) == a.shader_id);
        assert(vstd::bytes::spec_u32_from_le_bytes(ib[0]) == b.shader_id);
        assert(a.shader_id == b.shader_id);
        assert(a.cull_mode.discriminant() == b.cull_mode.discriminant());
        assert(a.depth_func.discriminant() == b.depth_func.discriminant());
        assert(a.src_factor.discriminant() == b.src_factor.discriminant());
        assert(a.dst_factor.discriminant() == b.dst_factor.discriminant());
        assert(bool_bytes(a.depth_test)[0] == bool_bytes(b.depth_test)[0]);
        assert(bool_bytes(a.depth_write)[0] == bool_bytes(b.depth_write)[0]);
        assert(bool_bytes(a.blend_enabled)[0] == bool_bytes(b.blend_enabled)[0]);
    }
}

/// Registering is idempotent: registering a state that was just registered
/// returns the same id and leaves the cache as it was.
pub proof fn law_register_idempotent(
    before: Map<u64, PipelineState>,
    after: Map<u64, PipelineState>,
    state: PipelineState,
)
    requires
        before.contains_key(state.spec_hash()),
        after == (if before.contains_key(state.spec_hash()) {
            before
        } else {
            before.insert(state.spec_hash(), state)
        }),
    ensures
        after == before,
{
}

/// After registering a state, its id finds a state with the same hash.
pub proof fn law_registered_is_found(
    before: Map<u64, PipelineState>,
    after: Map<u64, PipelineState>,
    state: PipelineState,
)
    requires
        after == (if before.contains_key(state.spec_hash()) {
            before
        } else {
            before.insert(state.spec_hash(), state)
        }),
    ensures
        after.contains_key(state.spec_hash()),
        !before.contains_key(state.spec_hash()) ==> after[state.spec_hash()] == state,
{
}

} // verus!
