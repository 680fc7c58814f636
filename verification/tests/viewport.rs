use gpml::viewport::{
    convert_to_rgba, render_step, DirtyRect, DoubleBuffer, Framebuffer, FramebufferFormat, RenderAction,
    RenderEvent, TexturePlan, TextureState,
};

#[test]
fn bytes_per_pixel_by_format() {
    assert_eq!(FramebufferFormat::Rgba8.bytes_per_pixel(), 4);
    assert_eq!(FramebufferFormat::Bgra8.bytes_per_pixel(), 4);
    assert_eq!(FramebufferFormat::Rgb8.bytes_per_pixel(), 3);
    assert_eq!(FramebufferFormat::Bgr8.bytes_per_pixel(), 3);
}

#[test]
fn new_framebuffer_is_zeroed_and_dirty() {
    let fb = Framebuffer::new(4, 2, FramebufferFormat::Rgb8);
    assert_eq!(fb.pitch, 12);
    assert_eq!(fb.buffer.len(), 24);
    assert!(fb.buffer.iter().all(|b| *b == 0));
    assert_eq!(fb.dirty_rect(), Some(DirtyRect { x: 0, y: 0, width: 4, height: 2 }));
    assert_eq!(fb.generation(), 0);
}

#[test]
fn resize_keeps_bytes_and_advances() {
    let mut fb = Framebuffer::new(2, 1, FramebufferFormat::Rgba8);
    fb.clear([1, 2, 3, 4]);
    assert_eq!(fb.generation(), 1);
    fb.resize(2, 1);
    assert_eq!(fb.generation(), 1);
    fb.resize(3, 1);
    assert_eq!(fb.generation(), 2);
    assert_eq!(fb.buffer, vec![1, 2, 3, 4, 1, 2, 3, 4, 0, 0, 0, 0]);
    assert_eq!(fb.dirty_rect(), Some(DirtyRect { x: 0, y: 0, width: 3, height: 1 }));
}

#[test]
fn clear_writes_format_order() {
    let mut fb = Framebuffer::new(1, 1, FramebufferFormat::Bgr8);
    fb.clear([10, 20, 30, 40]);
    assert_eq!(fb.buffer, vec![30, 20, 10]);
}

#[test]
fn dirty_marks() {
    let mut fb = Framebuffer::new(1, 1, FramebufferFormat::Rgba8);
    fb.clear_dirty();
    assert!(!fb.is_dirty());
    fb.mark_dirty(None);
    assert!(!fb.is_dirty());
    assert_eq!(fb.generation(), 1);
    let r = DirtyRect { x: 0, y: 0, width: 1, height: 1 };
    fb.mark_dirty(Some(r));
    assert_eq!(fb.dirty_rect(), Some(r));
    assert_eq!(fb.generation(), 2);
}

#[test]
fn rgba_conversion_by_format() {
    let mut conv = vec![9u8; 2];
    convert_to_rgba(&vec![1, 2, 3, 4, 5, 6], FramebufferFormat::Rgb8, &mut conv);
    assert_eq!(conv, vec![1, 2, 3, 255, 4, 5, 6, 255]);
    convert_to_rgba(&vec![1, 2, 3, 4, 5, 6], FramebufferFormat::Bgr8, &mut conv);
    assert_eq!(conv, vec![3, 2, 1, 255, 6, 5, 4, 255]);
    convert_to_rgba(&vec![1, 2, 3, 4], FramebufferFormat::Bgra8, &mut conv);
    assert_eq!(conv, vec![3, 2, 1, 4]);
    convert_to_rgba(&vec![1, 2, 3, 4, 5], FramebufferFormat::Rgba8, &mut conv);
    assert_eq!(conv, vec![1, 2, 3, 4, 5]);
    let mut conv = vec![7u8; 5];
    convert_to_rgba(&vec![1, 2, 3, 4], FramebufferFormat::Rgb8, &mut conv);
    assert_eq!(conv, vec![1, 2, 3, 255, 7]);
}

#[test]
fn double_buffer_swaps_roles() {
    let mut d = DoubleBuffer::new(1, 1, FramebufferFormat::Rgba8);
    d.clear_back([5, 6, 7, 8]);
    assert_eq!(d.get_front_buffer().buffer, vec![0, 0, 0, 0]);
    d.swap();
    assert_eq!(d.get_front_buffer().buffer, vec![5, 6, 7, 8]);
    d.swap();
    assert_eq!(d.get_front_buffer().buffer, vec![0, 0, 0, 0]);
}

#[test]
fn texture_plans() {
    let fb = Framebuffer::new(2, 2, FramebufferFormat::Rgba8);
    let mut t = TextureState::new(2, 2);
    assert_eq!(t.plan(&fb), TexturePlan::Convert);
    t.texture_made(fb.generation());
    assert_eq!(t.plan(&fb), TexturePlan::Keep);
    let empty = Framebuffer::new(0, 2, FramebufferFormat::Rgba8);
    t.texture_dirty = true;
    assert_eq!(t.plan(&empty), TexturePlan::SkipEmpty);
    assert_eq!((t.last_width, t.last_height), (0, 2));
}

#[test]
fn render_thread_steps() {
    assert_eq!(render_step(RenderEvent::Timeout), RenderAction::RenderFrame);
    assert_eq!(render_step(RenderEvent::Resize(3, 4)), RenderAction::Resize(3, 4));
    assert_eq!(render_step(RenderEvent::Shutdown), RenderAction::CleanupAndStop);
    assert_eq!(render_step(RenderEvent::Disconnected), RenderAction::Stop);
}
