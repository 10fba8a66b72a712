//! Frame-to-frame decisions: when the tiles of the last build can be reused.

use vstd::prelude::*;

verus! {

/// How tiles are cached from frame to frame.
#[derive(Clone, Copy, Debug, PartialEq, Eq, Structural)]
pub enum CachePolicy {
    /// No caching is performed.
    Never,
    /// Tiles are kept from frame to frame while only the translation
    /// changes; a change of scale, skew or rotation tiles again.
    OnTranslation,
}

/// The kind of render transform of a frame.
#[derive(Clone, Copy, Debug, PartialEq, Eq, Structural)]
pub enum TransformKind {
    Transform2D,
    Perspective,
}

pub open spec fn scene_is_dirty_spec(
    cache_policy: CachePolicy,
    kind: TransformKind,
    cached_matrix_matches: Option<bool>,
) -> bool {
    ||| cache_policy == CachePolicy::Never
    ||| kind == TransformKind::Perspective
    ||| cached_matrix_matches != Some(true)
}

/// Whether the scene must be tiled again. `cached_matrix_matches` is `None`
/// without cached tiles, else whether the cached 2D transform's linear part
/// equals the current one's.
pub fn scene_is_dirty(cache_policy: CachePolicy, kind: TransformKind, cached_matrix_matches: Option<bool>) -> (r: bool)
    ensures
        r == scene_is_dirty_spec(cache_policy, kind, cached_matrix_matches),
{
    if cache_policy == CachePolicy::Never {
        return true;
    }
    if kind == TransformKind::Perspective {
        return true;
    }
    match cached_matrix_matches {
        None => true,
        Some(matches) => !matches,
    }
}

/// Whether a fresh build's tiles are kept for later frames.
pub fn should_cache(cache_policy: CachePolicy, kind: TransformKind) -> (r: bool)
    ensures
        r == (cache_policy == CachePolicy::OnTranslation && kind == TransformKind::Transform2D),
{
    cache_policy == CachePolicy::OnTranslation && kind == TransformKind::Transform2D
}

/// What a frame does: send the cached tiles again (with build time zero),
/// or tile the scene, keeping the tiles for later frames when `keep_tiles`.
#[derive(Clone, Copy, Debug, PartialEq, Eq, Structural)]
pub enum FramePlan {
    ResendCached,
    Build { keep_tiles: bool },
}

pub open spec fn plan_frame_spec(
    cache_policy: CachePolicy,
    kind: TransformKind,
    cached_matrix_matches: Option<bool>,
) -> FramePlan {
    if scene_is_dirty_spec(cache_policy, kind, cached_matrix_matches) {
        FramePlan::Build {
            keep_tiles: cache_policy == CachePolicy::OnTranslation && kind == TransformKind::Transform2D,
        }
    } else {
        FramePlan::ResendCached
    }
}

/// Decides a frame from the cache policy, the transform kind and the cache
/// state (`None` without cached tiles, else whether the cached 2D
/// transform's linear part equals the current one's).
pub fn plan_frame(cache_policy: CachePolicy, kind: TransformKind, cached_matrix_matches: Option<bool>) -> (r: FramePlan)
    ensures
        r == plan_frame_spec(cache_policy, kind, cached_matrix_matches),
{
    if scene_is_dirty(cache_policy, kind, cached_matrix_matches) {
        FramePlan::Build { keep_tiles: should_cache(cache_policy, kind) }
    } else {
        FramePlan::ResendCached
    }
}

/// A frame built under `OnTranslation` with a 2D transform is cached, and a
/// following frame whose 2D transform differs only in translation (so its
/// linear part matches) is clean: the cached tiles are sent again.
pub proof fn lemma_translation_reuses_cache()
    ensures
        plan_frame_spec(CachePolicy::OnTranslation, TransformKind::Transform2D, None)
            == (FramePlan::Build { keep_tiles: true }),
        plan_frame_spec(CachePolicy::OnTranslation, TransformKind::Transform2D, Some(true)) == FramePlan::ResendCached,
        !scene_is_dirty_spec(CachePolicy::OnTranslation, TransformKind::Transform2D, Some(true)),
        scene_is_dirty_spec(CachePolicy::OnTranslation, TransformKind::Transform2D, Some(false)),
        scene_is_dirty_spec(CachePolicy::OnTranslation, TransformKind::Transform2D, None),
        scene_is_dirty_spec(CachePolicy::Never, TransformKind::Transform2D, Some(true)),
        scene_is_dirty_spec(CachePolicy::OnTranslation, TransformKind::Perspective, Some(true)),
{
}

} // verus!
