use vnengine::graphics::{Colour, Layer, LayerFramebuffer, ScreenDimension};

#[test]
fn colour_constants() {
    let w = Colour::white();
    assert_eq!((w.r, w.g, w.b, w.a), (255, 255, 255, 255));
    let h = Colour::half_white();
    assert_eq!((h.r, h.g, h.b, h.a), (0xBF, 0xBF, 0xBF, 0xFF));
}

#[test]
fn framebuffer_bytes_interleave_channels_in_order() {
    let fb = LayerFramebuffer::from_pixels(vec![
        Colour::new(1, 2, 3, 4),
        Colour::new(5, 6, 7, 8),
    ]);
    assert_eq!(fb.len(), 2);
    assert_eq!(fb.as_bytes(), vec![1, 2, 3, 4, 5, 6, 7, 8]);
}

#[test]
fn framebuffer_get_and_set() {
    let mut fb = LayerFramebuffer::from_pixels(vec![Colour::white(); 3]);
    fb.set(1, Colour::new(9, 9, 9, 9));
    assert_eq!(fb.get(0), Colour::white());
    assert_eq!(fb.get(1), Colour::new(9, 9, 9, 9));
    assert_eq!(fb.get(2), Colour::white());
}

#[test]
fn layers_carry_their_payload() {
    let solid = Layer::SolidColour(Colour::half_white());
    assert!(matches!(solid, Layer::SolidColour(c) if c == Colour::half_white()));
    let dim = ScreenDimension::new(640, 480);
    let buf = Layer::FrameBuffer(vec![Colour::white(); 4], dim);
    match buf {
        Layer::FrameBuffer(px, d) => {
            assert_eq!(px.len(), 4);
            assert_eq!((d.width, d.height), (640, 480));
        }
        _ => unreachable!(),
    }
}
