use layer_compositor::common::{Border, BorderPosition, Fill, Opacity};
use layer_compositor::composite::Surface;
use layer_compositor::container::ContainerProps;
use layer_compositor::display_list::{DisplayList, PaintCommand};
use layer_compositor::geometry::{Point, Rect, Size, Transform};
use layer_compositor::layer_renderer::{
    paint_sample_layer, render_container, render_layer, render_rect, render_scene,
};
use layer_compositor::layer_repository::LayerRepository;
use layer_compositor::layer_types::Layer;
use layer_compositor::rect::RectProps;
use layer_compositor::sample::{SampleLayerCreationCommand, SampleLayerProps};
use layer_compositor::scene_controller::SceneController;

fn area(x: i32, y: i32, width: i32, height: i32) -> Rect {
    Rect::new(Point::new(x, y), Size::new(width, height))
}

fn green_color() -> Fill {
    Fill::Color { r: 0, g: 255, b: 0, a: 255 }
}

fn blue_color() -> Fill {
    Fill::Color { r: 0, g: 0, b: 255, a: 255 }
}

fn half() -> Opacity {
    Opacity::from_bits(0.5f32.to_bits())
}

fn at(dx: i128, dy: i128) -> Transform {
    Transform { dx, dy }
}

fn bare_container(content_rect: Rect) -> ContainerProps {
    ContainerProps {
        content_rect,
        border: None,
        fill: None,
        opacity: Opacity::opaque(),
        children: vec![],
    }
}

fn styled_rect(content_rect: Rect) -> RectProps {
    RectProps {
        content_rect,
        border: Some(Border { position: BorderPosition::Inner, fill: blue_color(), width: 10 }),
        fill: Some(green_color()),
        opacity: Opacity::opaque(),
    }
}

fn fill(transform: Transform, rect: Rect) -> PaintCommand {
    PaintCommand::Fill { transform, rect, fill: green_color() }
}

fn stroke(transform: Transform, rect: Rect) -> PaintCommand {
    PaintCommand::Stroke { transform, rect, fill: blue_color(), width: 10 }
}

fn scene_of(repo: &LayerRepository) -> Vec<PaintCommand> {
    let mut target = DisplayList::new();
    render_scene(repo, &mut target);
    assert_eq!(target.transform, Transform::identity());
    target.commands
}

#[test]
fn a_display_list_records_what_it_is_told() {
    let mut list = DisplayList::new();
    assert_eq!(list.transform, Transform::identity());
    assert!(list.commands.is_empty());
    list.push_layer(half());
    list.fill(&area(1, 2, 3, 4), &green_color());
    list.set_transform(&at(10, 20));
    assert_eq!(*list.get_transform(), at(10, 20));
    list.stroke(&area(5, 6, 7, 8), &blue_color(), 3);
    list.sample(&area(0, 0, 400, 400));
    list.pop_layer();
    assert_eq!(
        list.commands,
        vec![
            PaintCommand::PushLayer { opacity: half() },
            PaintCommand::Fill {
                transform: at(0, 0),
                rect: area(1, 2, 3, 4),
                fill: green_color()
            },
            PaintCommand::Stroke {
                transform: at(10, 20),
                rect: area(5, 6, 7, 8),
                fill: blue_color(),
                width: 3
            },
            PaintCommand::Sample { transform: at(10, 20), rect: area(0, 0, 400, 400) },
            PaintCommand::PopLayer,
        ]
    );
    list.clear();
    assert!(list.commands.is_empty());
    assert_eq!(list.transform, at(10, 20));
}

#[test]
fn an_empty_scene_paints_nothing() {
    let repo = LayerRepository::new(Size::new(400, 400));
    assert_eq!(scene_of(&repo), vec![]);
}

#[test]
fn a_rectangle_is_filled_and_then_stroked() {
    let mut repo = LayerRepository::new(Size::new(400, 400));
    let root = *repo.root_layer_id();
    repo.create_rect_layer(&root, styled_rect(area(0, 200, 100, 100)));
    assert_eq!(
        scene_of(&repo),
        vec![
            PaintCommand::Fill {
                transform: at(0, 0),
                rect: area(0, 200, 100, 100),
                fill: Fill::Color { r: 0, g: 255, b: 0, a: 255 },
            },
            PaintCommand::Stroke {
                transform: at(0, 0),
                rect: area(0, 200, 100, 100),
                fill: Fill::Color { r: 0, g: 0, b: 255, a: 255 },
                width: 10,
            },
        ]
    );
}

#[test]
fn what_a_layer_lacks_is_not_painted() {
    let mut list = DisplayList::new();
    let mut props = styled_rect(area(0, 0, 10, 10));
    props.fill = None;
    render_rect(&mut list, &props);
    assert_eq!(list.commands, vec![stroke(at(0, 0), area(0, 0, 10, 10))]);
    list.clear();
    props.fill = Some(green_color());
    props.border = None;
    render_rect(&mut list, &props);
    assert_eq!(list.commands, vec![fill(at(0, 0), area(0, 0, 10, 10))]);
    list.clear();
    props.fill = None;
    render_rect(&mut list, &props);
    assert_eq!(list.commands, vec![]);
}

#[test]
fn the_border_is_stroked_the_same_wherever_it_is_meant_to_lie() {
    for position in [BorderPosition::Inner, BorderPosition::Center, BorderPosition::Outer] {
        let mut list = DisplayList::new();
        let props = RectProps {
            content_rect: area(1, 2, 3, 4),
            border: Some(Border { position, fill: blue_color(), width: 7 }),
            fill: None,
            opacity: Opacity::opaque(),
        };
        render_rect(&mut list, &props);
        assert_eq!(
            list.commands,
            vec![PaintCommand::Stroke {
                transform: at(0, 0),
                rect: area(1, 2, 3, 4),
                fill: blue_color(),
                width: 7
            }]
        );
    }
}

#[test]
fn nested_origins_add_up() {
    let mut repo = LayerRepository::new(Size::new(400, 400));
    let root = *repo.root_layer_id();
    let outer = repo.create_container_layer(&root, bare_container(area(50, 50, 300, 300)));
    let inner = repo.create_container_layer(&outer, bare_container(area(100, 100, 100, 100)));
    let mut leaf = styled_rect(area(0, 0, 10, 10));
    leaf.border = None;
    repo.create_rect_layer(&inner, leaf);
    let commands = scene_of(&repo);
    assert_eq!(commands, vec![fill(at(150, 150), area(0, 0, 10, 10))]);
    match commands[0] {
        PaintCommand::Fill { transform, rect, .. } => {
            assert_eq!(
                (transform.dx + rect.origin.x as i128, transform.dy + rect.origin.y as i128),
                (150, 150)
            );
        }
        _ => panic!("the leaf is filled"),
    }
}

#[test]
fn a_container_paints_itself_in_the_space_of_its_parent() {
    let mut repo = LayerRepository::new(Size::new(400, 400));
    let root = *repo.root_layer_id();
    let mut outer = bare_container(area(50, 60, 300, 300));
    outer.fill = Some(green_color());
    let outer = repo.create_container_layer(&root, outer);
    let mut inner = bare_container(area(-10, 5, 100, 100));
    inner.border = Some(Border { position: BorderPosition::Outer, fill: blue_color(), width: 10 });
    let inner = repo.create_container_layer(&outer, inner);
    repo.create_sample_layer(&inner, &area(1, 1, 40, 40));
    repo.create_rect_layer(&outer, styled_rect(area(7, 7, 7, 7)));
    assert_eq!(
        scene_of(&repo),
        vec![
            fill(at(0, 0), area(50, 60, 300, 300)),
            stroke(at(50, 60), area(-10, 5, 100, 100)),
            PaintCommand::Sample { transform: at(40, 65), rect: area(1, 1, 40, 40) },
            fill(at(50, 60), area(7, 7, 7, 7)),
            stroke(at(50, 60), area(7, 7, 7, 7)),
        ]
    );
}

#[test]
fn a_group_is_opened_for_what_is_not_opaque_and_for_nothing_else() {
    for bits in [0.0f32, 0.25, 0.5, 0.999, 1.0, 1.5, f32::NAN, -1.0, f32::INFINITY] {
        let opacity = Opacity::from_bits(bits.to_bits());
        let mut props = styled_rect(area(0, 0, 10, 10));
        props.opacity = opacity;
        let mut list = DisplayList::new();
        render_rect(&mut list, &props);
        let body = vec![fill(at(0, 0), area(0, 0, 10, 10)), stroke(at(0, 0), area(0, 0, 10, 10))];
        if bits >= 1.0 {
            assert_eq!(list.commands, body, "opacity {}", bits);
        } else {
            let mut grouped = vec![PaintCommand::PushLayer { opacity }];
            grouped.extend(body);
            grouped.push(PaintCommand::PopLayer);
            assert_eq!(list.commands, grouped, "opacity {}", bits);
        }
    }
}

#[test]
fn groups_of_nested_layers_nest() {
    let mut repo = LayerRepository::new(Size::new(400, 400));
    let root = *repo.root_layer_id();
    let mut boxed = bare_container(area(200, 200, 100, 100));
    boxed.opacity = half();
    boxed.fill = Some(green_color());
    let boxed = repo.create_container_layer(&root, boxed);
    let mut leaf = styled_rect(area(100, 100, 100, 100));
    leaf.opacity = Opacity::from_bits(0.25f32.to_bits());
    leaf.border = None;
    repo.create_rect_layer(&boxed, leaf);
    let mut opaque_leaf = styled_rect(area(0, 0, 5, 5));
    opaque_leaf.border = None;
    repo.create_rect_layer(&boxed, opaque_leaf);
    let commands = scene_of(&repo);
    assert_eq!(
        commands,
        vec![
            PaintCommand::PushLayer { opacity: half() },
            fill(at(0, 0), area(200, 200, 100, 100)),
            PaintCommand::PushLayer { opacity: Opacity::from_bits(0.25f32.to_bits()) },
            fill(at(200, 200), area(100, 100, 100, 100)),
            PaintCommand::PopLayer,
            fill(at(200, 200), area(0, 0, 5, 5)),
            PaintCommand::PopLayer,
        ]
    );
    let mut open = 0i32;
    let mut pushes = 0;
    for command in &commands {
        match command {
            PaintCommand::PushLayer { .. } => {
                open += 1;
                pushes += 1;
            }
            PaintCommand::PopLayer => open -= 1,
            _ => {}
        }
        assert!(open >= 0);
    }
    assert_eq!(open, 0);
    assert_eq!(pushes, 2);
}

#[test]
fn a_sample_layer_paints_the_sample_drawing() {
    let mut list = DisplayList::new();
    list.set_transform(&at(3, 4));
    let props = SampleLayerProps::new(SampleLayerCreationCommand(area(50, 50, 200, 200)));
    paint_sample_layer(&mut list, &props);
    assert_eq!(
        list.commands,
        vec![PaintCommand::Sample { transform: at(3, 4), rect: area(50, 50, 200, 200) }]
    );
    let mut faint = props;
    faint.opacity = half();
    list.clear();
    paint_sample_layer(&mut list, &faint);
    assert_eq!(
        list.commands,
        vec![
            PaintCommand::PushLayer { opacity: half() },
            PaintCommand::Sample { transform: at(3, 4), rect: area(50, 50, 200, 200) },
            PaintCommand::PopLayer,
        ]
    );
}

#[test]
fn rendering_adds_to_what_is_recorded_and_keeps_the_transform() {
    let mut repo = LayerRepository::new(Size::new(400, 400));
    let root = *repo.root_layer_id();
    let boxed = repo.create_container_layer(&root, bare_container(area(20, 30, 100, 100)));
    repo.create_rect_layer(&boxed, styled_rect(area(1, 1, 2, 2)));

    let mut list = DisplayList::new();
    list.set_transform(&at(1000, -1000));
    list.pop_layer();
    render_layer(repo.get_layer_by_id(&boxed), &repo, &mut list);
    assert_eq!(list.transform, at(1000, -1000));
    assert_eq!(
        list.commands,
        vec![
            PaintCommand::PopLayer,
            fill(at(1020, -970), area(1, 1, 2, 2)),
            stroke(at(1020, -970), area(1, 1, 2, 2)),
        ]
    );

    let mut other = DisplayList::new();
    other.set_transform(&at(1000, -1000));
    match repo.get_layer_by_id(&boxed) {
        Layer::Container(props) => render_container(&mut other, props, &repo),
        _ => panic!("the layer is a container"),
    }
    assert_eq!(other.commands[..], list.commands[1..]);
    let mut leaf_only = DisplayList::new();
    render_layer(&Layer::Rect(styled_rect(area(1, 1, 2, 2))), &repo, &mut leaf_only);
    assert_eq!(
        leaf_only.commands,
        vec![fill(at(0, 0), area(1, 1, 2, 2)), stroke(at(0, 0), area(1, 1, 2, 2))]
    );
}

#[test]
fn painting_moves_with_the_transform_of_the_target() {
    let mut repo = LayerRepository::new(Size::new(400, 400));
    let root = *repo.root_layer_id();
    let boxed = repo.create_container_layer(&root, bare_container(area(20, 30, 100, 100)));
    repo.create_rect_layer(&boxed, styled_rect(area(1, 1, 2, 2)));
    repo.create_sample_layer(&root, &area(5, 5, 50, 50));

    let plain = scene_of(&repo);
    let mut moved = DisplayList::new();
    moved.set_transform(&at(7, -9));
    render_scene(&repo, &mut moved);
    assert_eq!(plain.len(), moved.commands.len());
    for (a, b) in plain.iter().zip(moved.commands.iter()) {
        let shifted = match *a {
            PaintCommand::Fill { transform, rect, fill } => PaintCommand::Fill {
                transform: at(transform.dx + 7, transform.dy - 9),
                rect,
                fill,
            },
            PaintCommand::Stroke { transform, rect, fill, width } => PaintCommand::Stroke {
                transform: at(transform.dx + 7, transform.dy - 9),
                rect,
                fill,
                width,
            },
            PaintCommand::Sample { transform, rect } => {
                PaintCommand::Sample { transform: at(transform.dx + 7, transform.dy - 9), rect }
            }
            other => other,
        };
        assert_eq!(shifted, *b);
    }
}

#[test]
fn the_demo_scene_is_painted_in_the_order_of_its_layers() {
    let mut scene = SceneController::new(Size::new(400, 400));
    let root = *scene.layer_repository().root_layer_id();
    scene.create_sample(&root, &area(0, 0, 100, 100));
    scene.create_sample(&root, &area(50, 50, 200, 200));
    scene.create_sample(&root, &area(100, 100, 300, 300));
    scene.create_leaf(&root, styled_rect(area(0, 200, 100, 100)));
    let container_id = scene.create_container(
        &root,
        ContainerProps {
            content_rect: area(200, 200, 100, 100),
            opacity: half(),
            fill: Some(green_color()),
            border: Some(Border {
                fill: blue_color(),
                width: 10,
                position: BorderPosition::Inner,
            }),
            children: vec![],
        },
    );
    scene.create_leaf(&container_id, styled_rect(area(100, 100, 100, 100)));

    scene.update();
    let frame = scene.render();
    assert_eq!(frame.size, Size::new(400, 400));
    assert_eq!(
        frame.commands,
        vec![
            PaintCommand::Sample { transform: at(0, 0), rect: area(0, 0, 100, 100) },
            PaintCommand::Sample { transform: at(0, 0), rect: area(50, 50, 200, 200) },
            PaintCommand::Sample { transform: at(0, 0), rect: area(100, 100, 300, 300) },
            fill(at(0, 0), area(0, 200, 100, 100)),
            stroke(at(0, 0), area(0, 200, 100, 100)),
            PaintCommand::PushLayer { opacity: half() },
            fill(at(0, 0), area(200, 200, 100, 100)),
            stroke(at(0, 0), area(200, 200, 100, 100)),
            fill(at(200, 200), area(100, 100, 100, 100)),
            stroke(at(200, 200), area(100, 100, 100, 100)),
            PaintCommand::PopLayer,
        ]
    );
    assert_eq!(scene.composite_repository().len(), 2);
    assert_eq!(scene.composite_repository().get_composite_by_id(&2).source_layer_id, container_id);
}

#[test]
fn a_new_scene_holds_its_two_roots() {
    let scene = SceneController::new(Size::new(640, 480));
    assert_eq!(scene.layer_repository().len(), 1);
    assert_eq!(scene.composite_repository().len(), 1);
    assert_eq!(
        scene.composite_repository().get_composite_by_id(&1).source_layer_id,
        *scene.layer_repository().root_layer_id()
    );
    assert_eq!(scene.render(), Surface { size: Size::new(640, 480), commands: vec![] });
}

#[test]
fn a_resized_scene_is_rendered_at_its_new_size() {
    let mut scene = SceneController::new(Size::new(400, 400));
    let root = *scene.layer_repository().root_layer_id();
    scene.create_leaf(&root, styled_rect(area(0, 200, 100, 100)));
    scene.update();
    let before = scene.render();
    assert_eq!(before.size, Size::new(400, 400));

    scene.handle_resize(Size::new(800, 600));
    assert_eq!(
        scene.layer_repository().root_container_layer().content_rect,
        area(0, 0, 800, 600)
    );
    assert_eq!(scene.layer_repository().root_container_layer().children, vec![2]);
    let after = scene.render();
    assert_eq!(after.size, Size::new(800, 600));
    assert_eq!(after.commands, before.commands);
    assert_eq!(scene.render(), after);

    scene.update();
    assert_eq!(
        scene.composite_repository().get_composite_by_id(&1).surface,
        Some(Surface { size: Size::new(800, 600), commands: vec![] })
    );
}

/// The commands of the layer `id`, painted under `transform`.
fn commands_of(repo: &LayerRepository, id: usize, transform: Transform) -> Vec<PaintCommand> {
    let mut list = DisplayList::new();
    list.set_transform(&transform);
    render_layer(repo.get_layer_by_id(&id), repo, &mut list);
    list.commands
}

/// Walks the tree from `id` down and asserts that what each layer
/// paints under the sum of the origins above it is a run of `scene`.
fn assert_painted(repo: &LayerRepository, id: usize, transform: Transform, scene: &[PaintCommand]) {
    let own = commands_of(repo, id, transform);
    assert!(
        own.is_empty() || scene.windows(own.len()).any(|run| run == own.as_slice()),
        "layer {} is not painted under {:?}",
        id,
        transform
    );
    if let Layer::Container(props) = repo.get_layer_by_id(&id) {
        let below = transform.post_translate(props.content_rect.origin);
        for child in &props.children {
            assert_painted(repo, *child, below, scene);
        }
    }
}

#[test]
fn every_layer_is_painted_under_the_origins_above_it() {
    let mut repo = LayerRepository::new(Size::new(400, 400));
    let root = *repo.root_layer_id();
    let mut a = bare_container(area(10, 20, 300, 300));
    a.fill = Some(green_color());
    a.opacity = half();
    let a = repo.create_container_layer(&root, a);
    let b = repo.create_container_layer(&a, bare_container(area(-5, 7, 100, 100)));
    repo.create_rect_layer(&b, styled_rect(area(1, 2, 3, 4)));
    repo.create_sample_layer(&b, &area(9, 9, 9, 9));
    repo.create_rect_layer(&a, styled_rect(area(11, 12, 13, 14)));
    let c = repo.create_container_layer(&root, bare_container(area(100, 100, 50, 50)));
    let mut faint = styled_rect(area(0, 0, 5, 5));
    faint.opacity = half();
    repo.create_rect_layer(&c, faint);
    let scene = scene_of(&repo);
    assert_eq!(scene.len(), 12);
    assert_painted(&repo, root, Transform::identity(), &scene);
    assert_eq!(commands_of(&repo, 4, at(5, 27)), scene[2..4].to_vec());
    assert_eq!(commands_of(&repo, 8, at(100, 100)), scene[8..12].to_vec());
}
