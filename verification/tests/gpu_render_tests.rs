use trance::gpu_render::GpuCellRenderer;

#[test]
fn padded_row_size_is_multiple_of_256() {
    let r = GpuCellRenderer::new();
    assert_eq!(r.compute_padded_size(64), (256, 256));
    assert_eq!(r.compute_padded_size(65), (260, 512));
    assert_eq!(r.compute_padded_size(0), (0, 0));
    assert_eq!(r.compute_padded_size(1), (4, 256));
}

#[test]
fn first_frame_creates_everything() {
    let mut r = GpuCellRenderer::new();
    let p = r.render(10, 5, 8, 16, 16, 8, false, false, false).unwrap();
    assert_eq!((p.content_w, p.content_h), (80, 80));
    assert_eq!((p.unpadded, p.padded), (320, 512));
    assert!(p.recreate_target);
    assert_eq!(p.staging_size, 512 * 80);
    assert_eq!((p.atlas_w, p.atlas_h), (128, 128));
    assert!(p.recreate_atlas && p.upload_atlas && p.rebuild_bind_group);
    assert_eq!(p.instances, 50);
}

#[test]
fn steady_frames_reuse_resources() {
    let mut r = GpuCellRenderer::new();
    r.render(10, 5, 8, 16, 16, 8, false, false, false).unwrap();
    let p = r.render(10, 5, 8, 16, 16, 8, false, false, false).unwrap();
    assert!(!p.recreate_target && !p.recreate_atlas && !p.upload_atlas && !p.rebuild_bind_group);
    // a changed glyph set uploads and rebinds the atlas
    let p = r.render(10, 5, 8, 16, 16, 8, true, false, false).unwrap();
    assert!(p.recreate_atlas && p.upload_atlas && p.rebuild_bind_group && !p.recreate_target);
    // a recreated cell buffer rebinds and re-uploads
    let p = r.render(10, 5, 8, 16, 16, 8, false, true, false).unwrap();
    assert!(p.upload_atlas && p.rebuild_bind_group && !p.recreate_atlas);
    // a new size recreates the target only
    let p = r.render(11, 5, 8, 16, 16, 8, false, false, false).unwrap();
    assert!(p.recreate_target && !p.recreate_atlas && p.rebuild_bind_group);
}

#[test]
fn empty_image_plans_nothing() {
    let mut r = GpuCellRenderer::new();
    assert!(r.render(0, 5, 8, 16, 16, 8, false, false, false).is_none());
    assert!(!r.has_texture);
}
