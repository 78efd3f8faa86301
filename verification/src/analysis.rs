//! Rules of the frame-analysis overlay: which plugin textures may be created
//! or updated, the texture memory budget, and when a rendered layer is drawn.
use vstd::prelude::*;

verus! {

/// The most textures a plugin may hold.
pub const MAX_TEXTURES: usize = 64;

/// The most texture pixels a plugin may hold, over all its textures.
pub const MAX_TEXTURE_PIXELS: usize = 4194304;

/// How long a non-persistent layer stays on screen after its sample, in
/// nanoseconds (400 ms).
pub const LAYER_LIFETIME_NS: u128 = 400000000;

/// What an accepted texture upload does.
#[derive(Clone, Copy, Debug, PartialEq, Eq, Structural)]
pub enum UploadPlan {
    /// Update a rectangle inside an existing texture.
    Partial,
    /// Replace the whole image of an existing texture.
    Replace,
    /// Create a new texture.
    Create,
}

/// Why a texture upload is refused.
#[derive(Clone, Copy, Debug, PartialEq, Eq, Structural)]
pub enum UploadError {
    UnknownTexture,
    OutOfBounds,
    TooManyTextures,
    TooMuchMemory,
}

impl UploadError {
    pub fn message(&self) -> (m: &'static str)
        ensures
            m@ == spec_upload_message(*self),
    {
        match self {
            UploadError::UnknownTexture => {
                proof {
                    reveal_strlit("未知插件纹理");
                }
                "未知插件纹理"
            },
            UploadError::OutOfBounds => {
                proof {
                    reveal_strlit("纹理更新越界");
                }
                "纹理更新越界"
            },
            UploadError::TooManyTextures => {
                proof {
                    reveal_strlit("插件纹理数量超限");
                }
                "插件纹理数量超限"
            },
            UploadError::TooMuchMemory => {
                proof {
                    reveal_strlit("插件纹理内存超限");
                }
                "插件纹理内存超限"
            },
        }
    }
}

pub open spec fn spec_upload_message(e: UploadError) -> Seq<char> {
    match e {
        UploadError::UnknownTexture => seq!['未', '知', '插', '件', '纹', '理'],
        UploadError::OutOfBounds => seq!['纹', '理', '更', '新', '越', '界'],
        UploadError::TooManyTextures => seq!['插', '件', '纹', '理', '数', '量', '超', '限'],
        UploadError::TooMuchMemory => seq!['插', '件', '纹', '理', '内', '存', '超', '限'],
    }
}

/// The sizes of a plugin's textures by texture id.
pub struct TextureSizes {
    entries: Vec<(u64, usize, usize)>,
}

impl View for TextureSizes {
    type V = Seq<(u64, usize, usize)>;

    closed spec fn view(&self) -> Seq<(u64, usize, usize)> {
        self.entries@
    }
}

pub open spec fn unique_ids(s: Seq<(u64, usize, usize)>) -> bool {
    forall|i: int, j: int|
        0 <= i < s.len() && 0 <= j < s.len() && i != j ==> #[trigger] s[i].0 != #[trigger] s[j].0
}

pub open spec fn has_id(s: Seq<(u64, usize, usize)>, id: u64) -> bool {
    exists|i: int| 0 <= i < s.len() && #[trigger] s[i].0 == id
}

pub open spec fn id_index(s: Seq<(u64, usize, usize)>, id: u64) -> int {
    choose|i: int| 0 <= i < s.len() && #[trigger] s[i].0 == id
}

/// The pixels of all textures.
pub open spec fn total_pixels(s: Seq<(u64, usize, usize)>) -> int
    decreases s.len(),
{
    if s.len() == 0 {
        0
    } else {
        total_pixels(s.drop_last()) + s.last().1 * s.last().2
    }
}

/// The outcome of an upload of `size` pixels at `position` (`None` for a
/// whole image) to texture `id`, and the sizes after it.
pub open spec fn uploaded(
    s: Seq<(u64, usize, usize)>,
    id: u64,
    size: (usize, usize),
    position: Option<(usize, usize)>,
) -> (Result<UploadPlan, UploadError>, Seq<(u64, usize, usize)>) {
    match position {
        Some((x, y)) => if !has_id(s, id) {
            (Err(UploadError::UnknownTexture), s)
        } else {
            let t = s[id_index(s, id)];
            if x + size.0 <= t.1 && y + size.1 <= t.2 && x + size.0 <= usize::MAX && y + size.1
                <= usize::MAX {
                (Ok(UploadPlan::Partial), s)
            } else {
                (Err(UploadError::OutOfBounds), s)
            }
        },
        None => if has_id(s, id) {
            (Ok(UploadPlan::Replace), s.update(id_index(s, id), (id, size.0, size.1)))
        } else if s.len() < MAX_TEXTURES {
            (Ok(UploadPlan::Create), s.push((id, size.0, size.1)))
        } else {
            (Err(UploadError::TooManyTextures), s)
        },
    }
}

impl TextureSizes {
    /// Ids are unique, and there are never more textures than the limit.
    pub open spec fn wf(&self) -> bool {
        unique_ids(self@) && self@.len() <= MAX_TEXTURES
    }

    pub fn new() -> (t: Self)
        ensures
            t.wf(),
            t@.len() == 0,
    {
        TextureSizes { entries: Vec::new() }
    }

    /// Forgets every texture, as stopping the plugin does.
    pub fn clear(&mut self)
        ensures
            final(self).wf(),
            final(self)@.len() == 0,
    {
        self.entries = Vec::new();
    }

    fn find(&self, id: u64) -> (r: Option<usize>)
        requires
            self.wf(),
        ensures
            r is Some <==> has_id(self@, id),
            r matches Some(i) ==> i < self@.len() && i == id_index(self@, id),
    {
        let mut i: usize = 0;
        while i < self.entries.len()
            invariant
                i <= self.entries@.len(),
                self.wf(),
                forall|j: int| 0 <= j < i ==> #[trigger] self@[j].0 != id,
            decreases self.entries@.len() - i,
        {
            if self.entries[i].0 == id {
                assert(self@[i as int].0 == id);
                assert(has_id(self@, id));
                let ghost k = id_index(self@, id);
                assert(self@[k].0 == id);
                return Some(i);
            }
            i += 1;
        }
        None
    }

    /// Checks an upload of `size` pixels at `position` (`None` for a whole
    /// image) to texture `id` and records the size it leaves the texture at.
    /// A partial update must name a known texture and fit inside it; a new
    /// texture may only be created below the texture limit.
    pub fn apply(&mut self, id: u64, size: (usize, usize), position: Option<(usize, usize)>) -> (r:
        Result<UploadPlan, UploadError>)
        requires
            old(self).wf(),
        ensures
            final(self).wf(),
            (r, final(self)@) == uploaded(old(self)@, id, size, position),
    {
        let ghost s = self@;
        match position {
            Some((x, y)) => match self.find(id) {
                None => Err(UploadError::UnknownTexture),
                Some(i) => {
                    let t = self.entries[i];
                    let fits_x = match x.checked_add(size.0) {
                        Some(e) => e <= t.1,
                        None => false,
                    };
                    let fits_y = match y.checked_add(size.1) {
                        Some(e) => e <= t.2,
                        None => false,
                    };
                    if fits_x && fits_y {
                        Ok(UploadPlan::Partial)
                    } else {
                        Err(UploadError::OutOfBounds)
                    }
                },
            },
            None => match self.find(id) {
                Some(i) => {
                    self.entries.set(i, (id, size.0, size.1));
                    proof {
                        assert forall|a: int, b: int|
                            0 <= a < self@.len() && 0 <= b < self@.len() && a != b implies #[trigger] self@[a].0
                            != #[trigger] self@[b].0 by {
                            assert(s[a].0 != s[b].0);
                        }
                    }
                    Ok(UploadPlan::Replace)
                },
                None => {
                    if self.entries.len() < MAX_TEXTURES {
                        self.entries.push((id, size.0, size.1));
                        Ok(UploadPlan::Create)
                    } else {
                        Err(UploadError::TooManyTextures)
                    }
                },
            },
        }
    }

    /// Whether all textures together stay within the pixel budget.
    pub fn within_budget(&self) -> (b: bool)
        ensures
            b == (total_pixels(self@) <= MAX_TEXTURE_PIXELS),
    {
        let mut total: usize = 0;
        let mut i: usize = 0;
        while i < self.entries.len()
            invariant
                i <= self.entries@.len(),
                total == total_pixels(self@.take(i as int)),
                total <= MAX_TEXTURE_PIXELS,
            decreases self.entries@.len() - i,
        {
            let (_, w, h) = self.entries[i];
            proof {
                assert(self@.take(i + 1).drop_last() =~= self@.take(i as int));
                lemma_total_pixels_grows(self@, i as int + 1);
                assert(w * h >= 0) by (nonlinear_arith)
                    requires
                        w >= 0,
                        h >= 0,
                ;
            }
            let area = match w.checked_mul(h) {
                Some(a) => a,
                None => {
                    proof {
                        lemma_total_pixels_grows(self@, i as int);
                        assert(self@.take(self@.len() as int) =~= self@);
                        lemma_total_pixels_monotone(self@, i as int + 1, self@.len() as int);
                    }
                    return false;
                },
            };
            if area > MAX_TEXTURE_PIXELS - total {
                proof {
                    lemma_total_pixels_grows(self@, self@.len() as int);
                    assert(self@.take(self@.len() as int) =~= self@);
                    lemma_total_pixels_monotone(self@, i as int + 1, self@.len() as int);
                }
                return false;
            }
            total = total + area;
            i += 1;
        }
        assert(self@.take(self@.len() as int) =~= self@);
        true
    }
}

proof fn lemma_total_pixels_grows(s: Seq<(u64, usize, usize)>, k: int)
    requires
        0 <= k <= s.len(),
    ensures
        total_pixels(s.take(k)) >= 0,
    decreases k,
{
    if k > 0 {
        assert(s.take(k).drop_last() =~= s.take(k - 1));
        lemma_total_pixels_grows(s, k - 1);
        let t = s[k - 1];
        assert(t.1 * t.2 >= 0) by (nonlinear_arith)
            requires
                t.1 >= 0,
                t.2 >= 0,
        ;
    }
}

proof fn lemma_total_pixels_monotone(s: Seq<(u64, usize, usize)>, j: int, k: int)
    requires
        0 <= j <= k <= s.len(),
    ensures
        total_pixels(s.take(j)) <= total_pixels(s.take(k)),
    decreases k - j,
{
    if j < k {
        lemma_total_pixels_monotone(s, j, k - 1);
        assert(s.take(k).drop_last() =~= s.take(k - 1));
        let t = s[k - 1];
        assert(t.1 * t.2 >= 0) by (nonlinear_arith)
            requires
                t.1 >= 0,
                t.2 >= 0,
        ;
    }
}

/// What an upload does to the textures: a refused upload and a partial
/// update leave every size as it was; a whole image replaces only the size
/// of the texture it names; a new texture is appended. A partial update
/// needs a known texture and a rectangle inside it; a whole image of an
/// unknown texture creates it exactly while there are fewer textures than
/// the limit.
pub proof fn lemma_upload_effects(
    s: Seq<(u64, usize, usize)>,
    id: u64,
    size: (usize, usize),
    position: Option<(usize, usize)>,
)
    requires
        unique_ids(s),
    ensures
        ({
            let (r, s2) = uploaded(s, id, size, position);
            &&& r is Err ==> s2 == s
            &&& r == Ok::<UploadPlan, UploadError>(UploadPlan::Partial) ==> s2 == s && position is Some
                && has_id(s, id)
            &&& r == Ok::<UploadPlan, UploadError>(UploadPlan::Replace) ==> position is None && has_id(
                s,
                id,
            ) && s2.len() == s.len() && (forall|i: int|
                0 <= i < s.len() ==> #[trigger] s2[i] == if s[i].0 == id {
                    (id, size.0, size.1)
                } else {
                    s[i]
                })
            &&& r == Ok::<UploadPlan, UploadError>(UploadPlan::Create) ==> position is None && !has_id(
                s,
                id,
            ) && s.len() < MAX_TEXTURES && s2 == s.push((id, size.0, size.1))
            &&& position is Some && !has_id(s, id) ==> r == Err::<UploadPlan, UploadError>(
                UploadError::UnknownTexture,
            )
            &&& match position {
                Some((x, y)) => has_id(s, id) ==> (r == Ok::<UploadPlan, UploadError>(
                    UploadPlan::Partial,
                ) <==> (forall|i: int|
                    0 <= i < s.len() && s[i].0 == id ==> x + size.0 <= s[i].1 && y + size.1
                        <= s[i].2)),
                None => true,
            }
            &&& position is None && !has_id(s, id) ==> (r == Ok::<UploadPlan, UploadError>(
                UploadPlan::Create,
            ) <==> s.len() < MAX_TEXTURES)
        }),
{
    if has_id(s, id) {
        let k = id_index(s, id);
        assert forall|i: int| 0 <= i < s.len() && s[i].0 == id implies i == k by {
            if i != k {
                assert(s[i].0 != s[k].0);
            }
        }
    }
}

/// Whether a rendered layer is drawn: it must be switched on, and a layer
/// that is not persistent only while its sample is fresh.
pub fn layer_visible(enabled: bool, persistent: bool, age_ns: u128) -> (b: bool)
    ensures
        b == (enabled && (persistent || age_ns <= LAYER_LIFETIME_NS)),
{
    enabled && (persistent || age_ns <= LAYER_LIFETIME_NS)
}

/// Whether a rendered packet belongs to the current viewport revision and
/// plugin generation.
pub fn packet_current(packet_revision: u64, packet_generation: u64, revision: u64, generation: u64) -> (b:
    bool)
    ensures
        b == (packet_revision == revision && packet_generation == generation),
{
    packet_revision == revision && packet_generation == generation
}

/// How long until fading layers must be redrawn, while the sample is fresh.
pub fn repaint_after(age_ns: u128) -> (r: Option<u128>)
    ensures
        age_ns < LAYER_LIFETIME_NS ==> r == Some((LAYER_LIFETIME_NS - age_ns) as u128),
        age_ns >= LAYER_LIFETIME_NS ==> r is None,
{
    if age_ns < LAYER_LIFETIME_NS {
        Some(LAYER_LIFETIME_NS - age_ns)
    } else {
        None
    }
}

/// The frames per second sampled for analysis: the configured rate, 10 when
/// none is configured, and never below 1.
pub fn sample_fps(configured: Option<u64>) -> (r: u64)
    ensures
        r == match configured {
            Some(v) => if v >= 1 {
                v
            } else {
                1
            },
            None => 10,
        },
{
    match configured {
        Some(v) => if v >= 1 {
            v
        } else {
            1
        },
        None => 10,
    }
}

/// The viewport revision after a frame: it advances (wrapping) whenever the
/// viewport differs from the one last sent, starting from 1.
pub fn next_revision(last: Option<u64>, changed: bool) -> (r: u64)
    ensures
        r == (match last {
            Some(v) => if changed {
                (v + 1) % 0x1_0000_0000_0000_0000
            } else {
                v as int
            },
            None => 2,
        }),
{
    match last {
        Some(v) => if changed {
            v.wrapping_add(1)
        } else {
            v
        },
        None => 2,
    }
}

} // verus!
