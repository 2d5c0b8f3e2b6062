use layer_compositor::common::{Border, BorderPosition, Fill, Opacity};
use layer_compositor::composite::Surface;
use layer_compositor::container::ContainerProps;
use layer_compositor::display_list::PaintCommand;
use layer_compositor::geometry::{Point, Rect, Size};
use layer_compositor::rect::RectProps;
use layer_compositor::scene_controller::SceneController;
use raqote::{DrawOptions, DrawTarget, PathBuilder, SolidSource, Source, StrokeStyle, Transform};

const CLEAR: u32 = 0x0000_0000;
const GREEN: u32 = 0xFF00_FF00;
const BLUE: u32 = 0xFF00_00FF;

fn place(x: i32, y: i32, width: i32, height: i32) -> Rect {
    Rect::new(Point::new(x, y), Size::new(width, height))
}

fn solid_source(fill: Fill) -> Source<'static> {
    match fill {
        Fill::Color { r, g, b, a } => Source::Solid(SolidSource { r, g, b, a }),
    }
}

/// Carries the commands of `frame` out on a draw target of its size.
fn pixels_of(frame: &Surface) -> DrawTarget {
    let mut target = DrawTarget::new(frame.size.width, frame.size.height);
    for command in &frame.commands {
        match *command {
            PaintCommand::PushLayer { opacity } => {
                target.push_layer(f32::from_bits(opacity.to_bits()))
            }
            PaintCommand::PopLayer => target.pop_layer(),
            PaintCommand::Fill { transform, rect, fill } => {
                target.set_transform(&Transform::translation(
                    transform.dx as f32,
                    transform.dy as f32,
                ));
                let mut path = PathBuilder::new();
                path.rect(
                    rect.origin.x as f32,
                    rect.origin.y as f32,
                    rect.size.width as f32,
                    rect.size.height as f32,
                );
                target.fill(&path.finish(), &solid_source(fill), &DrawOptions::new());
            }
            PaintCommand::Stroke { transform, rect, fill, width } => {
                target.set_transform(&Transform::translation(
                    transform.dx as f32,
                    transform.dy as f32,
                ));
                let mut path = PathBuilder::new();
                path.rect(
                    rect.origin.x as f32,
                    rect.origin.y as f32,
                    rect.size.width as f32,
                    rect.size.height as f32,
                );
                let style = StrokeStyle { width: width as f32, ..Default::default() };
                target.stroke(&path.finish(), &solid_source(fill), &style, &DrawOptions::new());
            }
            PaintCommand::Sample { .. } => {}
        }
    }
    target
}

fn pixel(target: &DrawTarget, x: i32, y: i32) -> u32 {
    target.get_data()[(y * target.width() + x) as usize]
}

fn green_leaf(content_rect: Rect, border: Option<Border>) -> RectProps {
    RectProps {
        content_rect,
        border,
        fill: Some(Fill::Color { r: 0, g: 255, b: 0, a: 255 }),
        opacity: Opacity::opaque(),
    }
}

fn blue_inner_border() -> Border {
    Border {
        position: BorderPosition::Inner,
        fill: Fill::Color { r: 0, g: 0, b: 255, a: 255 },
        width: 10,
    }
}

fn plain_container(content_rect: Rect) -> ContainerProps {
    ContainerProps {
        content_rect,
        border: None,
        fill: None,
        opacity: Opacity::opaque(),
        children: vec![],
    }
}

#[test]
fn a_rectangle_comes_out_green_with_a_blue_edge() {
    let mut scene = SceneController::new(Size::new(400, 400));
    let root = *scene.layer_repository().root_layer_id();
    scene.create_leaf(&root, green_leaf(place(0, 200, 100, 100), Some(blue_inner_border())));
    let target = pixels_of(&scene.render());

    // Inside the stroke: the fill.
    for (x, y) in [(50, 250), (6, 206), (93, 293), (6, 293), (93, 206)] {
        assert_eq!(pixel(&target, x, y), GREEN, "at ({}, {})", x, y);
    }
    // The stroke is as wide as the border and centred on the edge.
    for (x, y) in [(2, 250), (97, 250), (50, 197), (50, 203), (50, 297), (50, 302), (102, 250)] {
        assert_eq!(pixel(&target, x, y), BLUE, "at ({}, {})", x, y);
    }
    // Beyond the stroke: nothing.
    for (x, y) in [(50, 190), (50, 310), (110, 250), (200, 100), (399, 399), (0, 0)] {
        assert_eq!(pixel(&target, x, y), CLEAR, "at ({}, {})", x, y);
    }
}

#[test]
fn a_leaf_in_nested_containers_comes_out_where_the_origins_add_up_to() {
    let mut scene = SceneController::new(Size::new(400, 400));
    let root = *scene.layer_repository().root_layer_id();
    let outer =
        scene.create_container(&root, plain_container(place(50, 50, 300, 300)));
    let inner = scene.create_container(&outer, plain_container(place(100, 100, 100, 100)));
    scene.create_leaf(&inner, green_leaf(place(0, 0, 20, 20), None));
    let target = pixels_of(&scene.render());
    assert_eq!(pixel(&target, 150, 150), GREEN);
    assert_eq!(pixel(&target, 169, 169), GREEN);
    assert_eq!(pixel(&target, 149, 150), CLEAR);
    assert_eq!(pixel(&target, 150, 149), CLEAR);
    assert_eq!(pixel(&target, 170, 170), CLEAR);
    assert_eq!(pixel(&target, 0, 0), CLEAR);
    assert_eq!(pixel(&target, 100, 100), CLEAR);
}

#[test]
fn a_translucent_container_shows_at_its_opacity() {
    let mut scene = SceneController::new(Size::new(400, 400));
    let root = *scene.layer_repository().root_layer_id();
    let mut boxed = plain_container(place(200, 200, 100, 100));
    boxed.opacity = Opacity::from_bits(0.5f32.to_bits());
    boxed.fill = Some(Fill::Color { r: 0, g: 255, b: 0, a: 255 });
    let boxed = scene.create_container(&root, boxed);
    let mut faint = green_leaf(place(0, 0, 50, 50), None);
    faint.opacity = Opacity::from_bits(0.5f32.to_bits());
    faint.fill = Some(Fill::Color { r: 0, g: 0, b: 255, a: 255 });
    scene.create_leaf(&boxed, faint);
    let target = pixels_of(&scene.render());

    let half_green = pixel(&target, 280, 280);
    let alpha = half_green >> 24;
    let green = (half_green >> 8) & 0xFF;
    assert!((127..=129).contains(&alpha), "alpha {}", alpha);
    assert!((127..=129).contains(&green), "green {}", green);
    assert_eq!(half_green & 0x00FF_00FF, 0);

    // The leaf is blended at its own opacity into the group, and the
    // group at the opacity of the container into the frame: the blue of
    // the leaf arrives at a quarter.
    let nested = pixel(&target, 210, 210);
    let blue = nested & 0xFF;
    assert!((62..=66).contains(&blue), "blue {}", blue);
    assert_eq!(pixel(&target, 100, 100), CLEAR);
}

#[test]
fn a_resized_scene_comes_out_at_its_new_size() {
    let mut scene = SceneController::new(Size::new(400, 400));
    let root = *scene.layer_repository().root_layer_id();
    scene.create_leaf(&root, green_leaf(place(350, 350, 100, 100), None));
    let small = pixels_of(&scene.render());
    assert_eq!((small.width(), small.height()), (400, 400));
    assert_eq!(small.get_data_u8().len(), 400 * 400 * 4);
    assert_eq!(pixel(&small, 399, 399), GREEN);

    scene.handle_resize(Size::new(800, 600));
    let large = pixels_of(&scene.render());
    assert_eq!((large.width(), large.height()), (800, 600));
    assert_eq!(large.get_data_u8().len(), 800 * 600 * 4);
    // What the old size cut off is there, and nothing else is.
    assert_eq!(pixel(&large, 399, 399), GREEN);
    assert_eq!(pixel(&large, 449, 449), GREEN);
    assert_eq!(pixel(&large, 450, 450), CLEAR);
    assert_eq!(pixel(&large, 799, 599), CLEAR);
    let green_pixels = large.get_data().iter().filter(|p| **p == GREEN).count();
    assert_eq!(green_pixels, 100 * 100);
}

#[test]
fn the_surface_of_a_composite_comes_out_in_its_own_space() {
    let mut scene = SceneController::new(Size::new(400, 400));
    let root = *scene.layer_repository().root_layer_id();
    let mut boxed = plain_container(place(200, 200, 40, 30));
    boxed.fill = Some(Fill::Color { r: 0, g: 255, b: 0, a: 255 });
    scene.create_container(&root, boxed);
    scene.update();
    let composite = scene.composite_repository().get_composite_by_id(&2);
    let surface = composite.surface.as_ref().expect("the composite has been rasterized");
    let target = pixels_of(surface);
    assert_eq!((target.width(), target.height()), (40, 30));
    assert!(target.get_data().iter().all(|p| *p == GREEN));
}
