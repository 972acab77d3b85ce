//! The decisions of the GPU cell renderer for one frame: the size of the
//! rendered image, the row pitch of its read-back buffer, which GPU resources
//! must be recreated or re-uploaded, and how many cell instances to draw. The
//! GPU work itself is done outside the library, following the plan.
use vstd::prelude::*;

verus! {

/// `wgpu_types::COPY_BYTES_PER_ROW_ALIGNMENT`: the alignment wgpu demands of
/// the bytes per row of a texture-to-buffer copy. The crate defines the
/// constant as 256; this contract states that value.
#[verifier::external_body]
fn copy_bytes_per_row_alignment() -> (a: u32)
    ensures
        a == 256,
{
    wgpu_types::COPY_BYTES_PER_ROW_ALIGNMENT
}

/// `n` rounded up to a multiple of 256.
pub open spec fn round_up_256(n: int) -> int {
    n + (256 - n % 256) % 256
}

/// The row size of an image `content_w` pixels wide fits a `u32`, padded too.
pub open spec fn row_pitch_fits(content_w: int) -> bool {
    content_w * 4 <= u32::MAX && round_up_256(content_w * 4) <= u32::MAX
}

/// What one frame needs from the GPU.
#[derive(Debug, Clone, Copy, PartialEq, Eq, Structural)]
pub struct RenderPlan {
    /// Size of the rendered image in pixels.
    pub content_w: u32,
    pub content_h: u32,
    /// Bytes per row of the image, and of its read-back copy (a multiple of 256).
    pub unpadded: u32,
    pub padded: u32,
    /// The render target and its read-back buffer must be recreated.
    pub recreate_target: bool,
    /// Size in bytes of the read-back buffer when it is recreated.
    pub staging_size: u64,
    /// Size of the glyph atlas in pixels.
    pub atlas_w: usize,
    pub atlas_h: usize,
    /// The atlas texture must be recreated.
    pub recreate_atlas: bool,
    /// The atlas image must be uploaded again.
    pub upload_atlas: bool,
    /// The bind group must be rebuilt.
    pub rebuild_bind_group: bool,
    /// Cell instances to draw.
    pub instances: u32,
}

/// The GPU resources of the cell renderer, as far as the frame decisions read them.
pub struct GpuCellRenderer {
    pub target_width: u32,
    pub target_height: u32,
    pub has_texture: bool,
    pub atlas_width: usize,
    pub atlas_height: usize,
    pub has_atlas_texture: bool,
    pub has_bind_group: bool,
}

impl GpuCellRenderer {
    /// No GPU resource created yet.
    pub fn new() -> (r: Self)
        ensures
            !r.has_texture,
            !r.has_atlas_texture,
            !r.has_bind_group,
            r.target_width == 0 && r.target_height == 0,
            r.atlas_width == 0 && r.atlas_height == 0,
    {
        GpuCellRenderer {
            target_width: 0,
            target_height: 0,
            has_texture: false,
            atlas_width: 0,
            atlas_height: 0,
            has_atlas_texture: false,
            has_bind_group: false,
        }
    }

    /// The render target must be recreated for an image of this size.
    pub open spec fn target_stale(&self, content_w: u32, content_h: u32) -> bool {
        !(self.target_width == content_w && self.target_height == content_h && self.has_texture)
    }

    /// The atlas texture must be recreated for an atlas of this size.
    pub open spec fn atlas_stale(&self, atlas_w: usize, atlas_h: usize, dirty: bool) -> bool {
        dirty || !self.has_atlas_texture || self.atlas_width != atlas_w || self.atlas_height != atlas_h
    }

    /// Bytes per row of an image `content_w` pixels wide, and the same rounded
    /// up to the copy alignment of 256.
    pub fn compute_padded_size(&self, content_w: u32) -> (r: (u32, u32))
        requires
            row_pitch_fits(content_w as int),
        ensures
            r.0 == content_w * 4,
            r.1 == round_up_256(content_w * 4),
            r.1 % 256 == 0,
            r.0 <= r.1 < r.0 + 256,
    {
        let unpadded = content_w * 4;
        let align = copy_bytes_per_row_alignment();
        let padded = unpadded + (align - unpadded % align) % align;
        (unpadded, padded)
    }

    /// Recreates the render target (and its read-back buffer of
    /// `padded * content_h` bytes) unless one of this size exists; says whether it did.
    pub fn ensure_target_texture(&mut self, content_w: u32, content_h: u32, padded: u32) -> (r: (bool, u64))
        requires
            old(self).target_stale(content_w, content_h) ==> padded * content_h <= u32::MAX,
        ensures
            r.0 == old(self).target_stale(content_w, content_h),
            r.1 == (if r.0 { padded * content_h } else { 0 }),
            final(self).target_width == content_w,
            final(self).target_height == content_h,
            final(self).has_texture,
            final(self).atlas_width == old(self).atlas_width,
            final(self).atlas_height == old(self).atlas_height,
            final(self).has_atlas_texture == old(self).has_atlas_texture,
            final(self).has_bind_group == old(self).has_bind_group,
    {
        if self.target_width == content_w && self.target_height == content_h && self.has_texture {
            return (false, 0);
        }
        self.target_width = content_w;
        self.target_height = content_h;
        self.has_texture = true;
        (true, (padded * content_h) as u64)
    }

    /// Recreates the atlas texture when the glyph set changed or its size
    /// differs; returns the atlas size and whether it was recreated.
    pub fn ensure_atlas_texture(
        &mut self,
        atlas_cols: usize,
        atlas_rows: usize,
        cell_width: usize,
        cell_height: usize,
        dirty: bool,
    ) -> (r: (usize, usize, bool))
        requires
            atlas_cols * cell_width <= usize::MAX,
            atlas_rows * cell_height <= usize::MAX,
        ensures
            r.0 == atlas_cols * cell_width,
            r.1 == atlas_rows * cell_height,
            r.2 == old(self).atlas_stale(r.0, r.1, dirty),
            final(self).atlas_width == r.0,
            final(self).atlas_height == r.1,
            final(self).has_atlas_texture,
            final(self).target_width == old(self).target_width,
            final(self).target_height == old(self).target_height,
            final(self).has_texture == old(self).has_texture,
            final(self).has_bind_group == old(self).has_bind_group,
    {
        let atlas_w = atlas_cols * cell_width;
        let atlas_h = atlas_rows * cell_height;
        if !dirty && self.has_atlas_texture && self.atlas_width == atlas_w && self.atlas_height == atlas_h {
            return (atlas_w, atlas_h, false);
        }
        self.atlas_width = atlas_w;
        self.atlas_height = atlas_h;
        self.has_atlas_texture = true;
        (atlas_w, atlas_h, true)
    }

    /// The image of `cols` by `rows` cells of `cell_width` by `cell_height`
    /// pixels fits the computations of `render` (which panic on overflow).
    pub open spec fn render_fits(
        &self,
        cols: usize,
        rows: usize,
        cell_width: usize,
        cell_height: usize,
        atlas_cols: usize,
        atlas_rows: usize,
    ) -> bool {
        let cw = (cols * cell_width) as u32;
        let ch = (rows * cell_height) as u32;
        &&& cols * cell_width <= usize::MAX
        &&& rows * cell_height <= usize::MAX
        &&& (cw != 0 && ch != 0) ==> {
            &&& row_pitch_fits(cw as int)
            &&& self.target_stale(cw, ch) ==> round_up_256(cw * 4) * ch <= u32::MAX
            &&& atlas_cols * cell_width <= usize::MAX
            &&& atlas_rows * cell_height <= usize::MAX
            &&& cols * rows <= usize::MAX
        }
    }

    /// The plan of a frame of `cols` by `rows` cells whose image is not empty.
    pub open spec fn plan_for(
        &self,
        cols: usize,
        rows: usize,
        cell_width: usize,
        cell_height: usize,
        atlas_cols: usize,
        atlas_rows: usize,
        atlas_dirty: bool,
        cells_recreated: bool,
        uniforms_recreated: bool,
    ) -> RenderPlan {
        let cw = (cols * cell_width) as u32;
        let ch = (rows * cell_height) as u32;
        let aw = (atlas_cols * cell_width) as usize;
        let ah = (atlas_rows * cell_height) as usize;
        let target = self.target_stale(cw, ch);
        let atlas = self.atlas_stale(aw, ah, atlas_dirty);
        let any = target || cells_recreated || uniforms_recreated || atlas;
        let padded = round_up_256(cw * 4) as u32;
        RenderPlan {
            content_w: cw,
            content_h: ch,
            unpadded: (cw * 4) as u32,
            padded,
            recreate_target: target,
            staging_size: if target {
                (padded * ch) as u64
            } else {
                0
            },
            atlas_w: aw,
            atlas_h: ah,
            recreate_atlas: atlas,
            upload_atlas: atlas_dirty || any,
            rebuild_bind_group: any || !self.has_bind_group,
            instances: (cols * rows) as u32,
        }
    }

    /// Plans one frame: nothing when the image is empty; otherwise the image
    /// size, row pitches, the render target recreated when its size changed,
    /// the atlas recreated when the glyph set changed or its size differs, the
    /// atlas uploaded when it changed or anything was recreated, the bind group
    /// rebuilt when anything was recreated or none exists, and one instance
    /// per cell. `cells_recreated` and `uniforms_recreated` say whether the
    /// cell and uniform buffers were just recreated.
    pub fn render(
        &mut self,
        cols: usize,
        rows: usize,
        cell_width: usize,
        cell_height: usize,
        atlas_cols: usize,
        atlas_rows: usize,
        atlas_dirty: bool,
        cells_recreated: bool,
        uniforms_recreated: bool,
    ) -> (r: Option<RenderPlan>)
        requires
            old(self).render_fits(cols, rows, cell_width, cell_height, atlas_cols, atlas_rows),
        ensures
            ({
                let cw = (cols * cell_width) as u32;
                let ch = (rows * cell_height) as u32;
                if cw == 0 || ch == 0 {
                    r is None && *final(self) == *old(self)
                } else {
                    &&& r == Some(
                        old(self).plan_for(
                            cols,
                            rows,
                            cell_width,
                            cell_height,
                            atlas_cols,
                            atlas_rows,
                            atlas_dirty,
                            cells_recreated,
                            uniforms_recreated,
                        ),
                    )
                    &&& *final(self) == rendered_state(cols, rows, cell_width, cell_height, atlas_cols, atlas_rows)
                }
            }),
    {
        let content_w = (cols * cell_width) as u32;
        let content_h = (rows * cell_height) as u32;
        if content_w == 0 || content_h == 0 {
            return None;
        }
        let (unpadded, padded) = self.compute_padded_size(content_w);
        let (recreate_target, staging_size) = self.ensure_target_texture(content_w, content_h, padded);
        let (atlas_w, atlas_h, recreate_atlas) = self.ensure_atlas_texture(
            atlas_cols,
            atlas_rows,
            cell_width,
            cell_height,
            atlas_dirty,
        );
        let recreate_bind = recreate_target || cells_recreated || uniforms_recreated || recreate_atlas;
        let upload_atlas = (atlas_dirty || recreate_bind) && self.has_atlas_texture;
        let rebuild_bind_group = recreate_bind || !self.has_bind_group;
        if rebuild_bind_group && self.has_atlas_texture {
            self.has_bind_group = true;
        }
        let instances = (cols * rows) as u32;
        Some(
            RenderPlan {
                content_w,
                content_h,
                unpadded,
                padded,
                recreate_target,
                staging_size,
                atlas_w,
                atlas_h,
                recreate_atlas,
                upload_atlas,
                rebuild_bind_group,
                instances,
            },
        )
    }
}


/// The resources after a frame of `cols` by `rows` cells whose image is not
/// empty was planned: a render target of the image's size, an atlas texture of
/// the atlas's size, and a bind group.
pub open spec fn rendered_state(
    cols: usize,
    rows: usize,
    cell_width: usize,
    cell_height: usize,
    atlas_cols: usize,
    atlas_rows: usize,
) -> GpuCellRenderer {
    GpuCellRenderer {
        target_width: (cols * cell_width) as u32,
        target_height: (rows * cell_height) as u32,
        has_texture: true,
        atlas_width: (atlas_cols * cell_width) as usize,
        atlas_height: (atlas_rows * cell_height) as usize,
        has_atlas_texture: true,
        has_bind_group: true,
    }
}

/// A second frame of the same size, with the atlas unchanged and neither the
/// cell nor the uniform buffer recreated, recreates nothing: no render target,
/// no atlas texture, no atlas upload and no new bind group.
pub proof fn law_steady_frame_recreates_nothing(
    cols: usize,
    rows: usize,
    cell_width: usize,
    cell_height: usize,
    atlas_cols: usize,
    atlas_rows: usize,
)
    ensures
        ({
            let p = rendered_state(cols, rows, cell_width, cell_height, atlas_cols, atlas_rows).plan_for(
                cols,
                rows,
                cell_width,
                cell_height,
                atlas_cols,
                atlas_rows,
                false,
                false,
                false,
            );
            &&& !p.recreate_target
            &&& !p.recreate_atlas
            &&& !p.upload_atlas
            &&& !p.rebuild_bind_group
            &&& p.staging_size == 0
        }),
{
}

/// The render target is kept only when one exists whose width and height both
/// equal the image's: otherwise the plan recreates it, with a read-back buffer
/// of `padded * content_h` bytes; when it is kept, no buffer is made.
pub proof fn law_target_kept_only_at_same_size(
    s: GpuCellRenderer,
    cols: usize,
    rows: usize,
    cell_width: usize,
    cell_height: usize,
    atlas_cols: usize,
    atlas_rows: usize,
    atlas_dirty: bool,
    cells_recreated: bool,
    uniforms_recreated: bool,
)
    ensures
        ({
            let p = s.plan_for(
                cols,
                rows,
                cell_width,
                cell_height,
                atlas_cols,
                atlas_rows,
                atlas_dirty,
                cells_recreated,
                uniforms_recreated,
            );
            let kept = s.has_texture && s.target_width == p.content_w && s.target_height == p.content_h;
            &&& p.content_w == (cols * cell_width) as u32
            &&& p.content_h == (rows * cell_height) as u32
            &&& p.recreate_target == !kept
            &&& p.staging_size == (if kept { 0 } else { (p.padded * p.content_h) as u64 })
            &&& !kept ==> p.rebuild_bind_group
        }),
{
}
} // verus!
