use layer_compositor::common::{Border, BorderPosition, Fill, Opacity};
use layer_compositor::composite::{Composite, CompositeRepository, Surface};
use layer_compositor::compositing_reason::{get_compositing_reason, CompositingReason};
use layer_compositor::compositor::Compositor;
use layer_compositor::container::ContainerProps;
use layer_compositor::display_list::{DisplayList, PaintCommand};
use layer_compositor::geometry::{Point, Rect, Size, Transform};
use layer_compositor::layer_repository::LayerRepository;
use layer_compositor::layer_types::Layer;
use layer_compositor::rect::RectProps;
use layer_compositor::sample::{SampleLayerCreationCommand, SampleLayerProps};

fn rect_of(x: i32, y: i32, width: i32, height: i32) -> Rect {
    Rect::new(Point::new(x, y), Size::new(width, height))
}

fn green_fill() -> Fill {
    Fill::Color { r: 0, g: 255, b: 0, a: 255 }
}

fn blue() -> Fill {
    Fill::Color { r: 0, g: 0, b: 255, a: 255 }
}

fn inner_blue_border() -> Border {
    Border { position: BorderPosition::Inner, fill: blue(), width: 10 }
}

fn empty_container(content_rect: Rect) -> ContainerProps {
    ContainerProps {
        content_rect,
        border: None,
        fill: None,
        opacity: Opacity::opaque(),
        children: vec![],
    }
}

fn leaf(content_rect: Rect) -> RectProps {
    RectProps { content_rect, border: None, fill: Some(green_fill()), opacity: Opacity::opaque() }
}

fn fresh_composite(source_layer_id: usize) -> Composite {
    Composite {
        source_layer_id,
        compositing_reason: CompositingReason::NewCoordSystem,
        children: vec![],
        rect: Rect::zero(),
        surface: None,
    }
}

/// Every composite of the repository, by id, as (source, children, surface).
fn snapshot(repo: &CompositeRepository) -> Vec<(usize, Vec<usize>, Option<(Size, Vec<PaintCommand>)>)> {
    let mut all = Vec::new();
    let mut id = 1;
    while id <= repo.len() {
        let composite = repo.get_composite_by_id(&id);
        assert_eq!(composite.compositing_reason, CompositingReason::NewCoordSystem);
        assert_eq!(composite.rect, Rect::zero());
        all.push((
            composite.source_layer_id,
            composite.children.clone(),
            composite.surface.as_ref().map(|s| (s.size, s.commands.clone())),
        ));
        id += 1;
    }
    all
}

#[test]
fn containers_have_a_reason_and_leaves_have_none() {
    assert_eq!(
        get_compositing_reason(&Layer::Container(empty_container(rect_of(0, 0, 1, 1)))),
        Some(CompositingReason::NewCoordSystem)
    );
    assert_eq!(get_compositing_reason(&Layer::default()), Some(CompositingReason::NewCoordSystem));
    assert_eq!(get_compositing_reason(&Layer::Rect(leaf(rect_of(0, 0, 1, 1)))), None);
    assert_eq!(
        get_compositing_reason(&Layer::Sample(SampleLayerProps::new(SampleLayerCreationCommand(
            rect_of(0, 0, 1, 1)
        )))),
        None
    );
}

#[test]
fn new_composite_repository_holds_the_root_composite() {
    let repo = CompositeRepository::new(&1);
    assert_eq!(*repo.root_composite_id(), 1);
    assert_eq!(repo.len(), 1);
    assert!(repo.contains(&1));
    assert!(!repo.contains(&0));
    assert!(!repo.contains(&2));
    assert_eq!(*repo.get_composite_by_id(&1), fresh_composite(1));
}

#[test]
fn new_composites_get_increasing_ids_and_no_parent() {
    let mut repo = CompositeRepository::new(&1);
    let a = repo.new_composite(fresh_composite(7));
    let b = repo.new_composite(fresh_composite(9));
    assert_eq!((a, b), (2, 3));
    assert_eq!(repo.len(), 3);
    assert_eq!(repo.get_composite_by_id(&a).source_layer_id, 7);
    assert_eq!(repo.get_composite_by_id(&b).source_layer_id, 9);
    assert!(repo.get_composite_by_id(&1).children.is_empty());
}

#[test]
fn an_empty_slot_is_filled_and_a_taken_slot_is_kept() {
    let mut repo = CompositeRepository::new(&1);
    assert!(repo.create_nth_child_if_not_exists(&1, 0, &5, CompositingReason::NewCoordSystem));
    assert_eq!(repo.get_composite_by_id(&1).children, vec![2]);
    assert_eq!(*repo.get_composite_by_id(&2), fresh_composite(5));
    // The slot is taken: nothing is created, and the composite in it
    // stays bound to the layer it was made for.
    assert!(!repo.create_nth_child_if_not_exists(&1, 0, &6, CompositingReason::NewCoordSystem));
    assert_eq!(repo.len(), 2);
    assert_eq!(repo.get_composite_by_id(&1).children, vec![2]);
    assert_eq!(repo.get_composite_by_id(&2).source_layer_id, 5);
    // A slot beyond the next free one is filled by appending.
    assert!(repo.create_nth_child_if_not_exists(&1, 4, &8, CompositingReason::NewCoordSystem));
    assert_eq!(repo.get_composite_by_id(&1).children, vec![2, 3]);
    assert_eq!(repo.get_composite_by_id(&3).source_layer_id, 8);
    assert!(repo.create_nth_child_if_not_exists(&3, 0, &9, CompositingReason::NewCoordSystem));
    assert_eq!(repo.get_composite_by_id(&3).children, vec![4]);
    assert_eq!(repo.get_composite_by_id(&1).children, vec![2, 3]);
}

#[test]
fn a_composite_can_be_changed_in_place() {
    let mut repo = CompositeRepository::new(&1);
    repo.get_composite_by_id_mut(&1).rect = rect_of(1, 2, 3, 4);
    assert_eq!(repo.get_composite_by_id(&1).rect, rect_of(1, 2, 3, 4));
    assert_eq!(repo.get_composite_by_id(&1).source_layer_id, 1);
    assert_eq!(repo.len(), 1);
}

#[test]
fn a_container_is_rasterized_in_its_own_space() {
    let props = ContainerProps {
        content_rect: rect_of(200, 200, 100, 50),
        border: Some(inner_blue_border()),
        fill: Some(green_fill()),
        opacity: Opacity::from_bits(0.5f32.to_bits()),
        children: vec![3, 4],
    };
    let mut composite = fresh_composite(2);
    composite.children = vec![7];
    layer_compositor::rasterizer::rasterize_container_layer(&mut composite, &props);
    let local = rect_of(0, 0, 100, 50);
    assert_eq!(
        composite,
        Composite {
            source_layer_id: 2,
            compositing_reason: CompositingReason::NewCoordSystem,
            children: vec![7],
            rect: Rect::zero(),
            surface: Some(Surface {
                size: Size::new(100, 50),
                commands: vec![
                    PaintCommand::Fill {
                        transform: Transform::identity(),
                        rect: local,
                        fill: green_fill()
                    },
                    PaintCommand::Stroke {
                        transform: Transform::identity(),
                        rect: local,
                        fill: blue(),
                        width: 10
                    },
                ],
            }),
        }
    );
}

#[test]
fn a_bare_container_is_rasterized_to_an_empty_surface() {
    let mut composite = fresh_composite(1);
    layer_compositor::rasterizer::rasterize_container_layer(
        &mut composite,
        &empty_container(rect_of(5, 5, 30, 30)),
    );
    assert_eq!(composite.surface, Some(Surface { size: Size::new(30, 30), commands: vec![] }));
}

#[test]
fn a_container_is_painted_at_the_origin_of_the_target() {
    let mut props = empty_container(rect_of(10, 10, 30, 30));
    props.fill = Some(Fill::Color { r: 0, g: 0, b: 0, a: 255 });
    let mut target = DisplayList::new();
    target.set_transform(&Transform::create_translation(10, 10));
    layer_compositor::layer_rasterizer::rasterize_container_layer(&mut target, &props);
    assert_eq!(
        target.commands,
        vec![PaintCommand::Fill {
            transform: Transform { dx: 10, dy: 10 },
            rect: rect_of(0, 0, 30, 30),
            fill: Fill::Color { r: 0, g: 0, b: 0, a: 255 },
        }]
    );
    assert_eq!(target.transform, Transform { dx: 10, dy: 10 });
}

#[test]
fn one_child_container_gets_one_composite() {
    let mut layers = LayerRepository::new(Size::new(400, 400));
    let root = *layers.root_layer_id();
    let mut props = empty_container(rect_of(200, 200, 100, 100));
    props.opacity = Opacity::from_bits(0.5f32.to_bits());
    let child = layers.create_container_layer(&root, props);

    let mut composites = CompositeRepository::new(&root);
    let mut compositor = Compositor::new();
    compositor.synchronize_composites(&layers, &mut composites);

    assert_eq!(composites.len(), 2);
    let root_composite = composites.get_composite_by_id(composites.root_composite_id());
    assert_eq!(root_composite.source_layer_id, root);
    assert_eq!(root_composite.children, vec![2]);
    let created = composites.get_composite_by_id(&2);
    assert_eq!(created.source_layer_id, child);
    assert_eq!(created.compositing_reason, CompositingReason::NewCoordSystem);
    assert!(created.children.is_empty());

    let before = snapshot(&composites);
    compositor.synchronize_composites(&layers, &mut composites);
    assert_eq!(composites.len(), 2);
    assert_eq!(snapshot(&composites), before);
}

#[test]
fn no_leaf_gets_a_composite() {
    let mut layers = LayerRepository::new(Size::new(400, 400));
    let root = *layers.root_layer_id();
    layers.create_sample_layer(&root, &rect_of(0, 0, 100, 100));
    layers.create_rect_layer(&root, leaf(rect_of(0, 200, 100, 100)));
    let boxed = layers.create_container_layer(&root, empty_container(rect_of(200, 200, 100, 100)));
    layers.create_rect_layer(&boxed, leaf(rect_of(100, 100, 100, 100)));
    layers.create_sample_layer(&boxed, &rect_of(0, 0, 10, 10));

    let mut composites = CompositeRepository::new(&root);
    Compositor::new().synchronize_composites(&layers, &mut composites);

    assert_eq!(composites.len(), 2);
    let mut id = 1;
    while id <= composites.len() {
        let source = composites.get_composite_by_id(&id).source_layer_id;
        assert!(layers.is_container(&source), "composite {} is bound to the leaf {}", id, source);
        id += 1;
    }
    assert_eq!(composites.get_composite_by_id(&2).source_layer_id, boxed);
}

#[test]
fn the_walk_goes_into_nested_containers_in_order() {
    let mut layers = LayerRepository::new(Size::new(400, 400));
    let root = *layers.root_layer_id();
    let a = layers.create_container_layer(&root, empty_container(rect_of(0, 0, 200, 200)));
    layers.create_rect_layer(&root, leaf(rect_of(0, 0, 10, 10)));
    let b = layers.create_container_layer(&root, empty_container(rect_of(200, 0, 200, 200)));
    let a1 = layers.create_container_layer(&a, empty_container(rect_of(0, 0, 50, 50)));
    let b1 = layers.create_container_layer(&b, empty_container(rect_of(0, 0, 50, 50)));
    let a2 = layers.create_container_layer(&a, empty_container(rect_of(50, 50, 50, 50)));
    let a11 = layers.create_container_layer(&a1, empty_container(rect_of(0, 0, 5, 5)));

    let mut composites = CompositeRepository::new(&root);
    let mut compositor = Compositor::new();
    compositor.synchronize_composites(&layers, &mut composites);

    // Depth first, in the order of the layers: a, a1, a11, a2, b, b1.
    let empty = |size: Size| Some((size, Vec::<PaintCommand>::new()));
    assert_eq!(
        snapshot(&composites),
        vec![
            (root, vec![2, 6], empty(Size::new(400, 400))),
            (a, vec![3, 5], empty(Size::new(200, 200))),
            (a1, vec![4], empty(Size::new(50, 50))),
            (a11, vec![], empty(Size::new(5, 5))),
            (a2, vec![], empty(Size::new(50, 50))),
            (b, vec![7], empty(Size::new(200, 200))),
            (b1, vec![], empty(Size::new(50, 50))),
        ]
    );

    let before = snapshot(&composites);
    compositor.synchronize_composites(&layers, &mut composites);
    assert_eq!(snapshot(&composites), before);
    compositor.synchronize_composites(&layers, &mut composites);
    assert_eq!(snapshot(&composites), before);
}

#[test]
fn a_container_added_later_gets_the_next_slot() {
    let mut layers = LayerRepository::new(Size::new(400, 400));
    let root = *layers.root_layer_id();
    let a = layers.create_container_layer(&root, empty_container(rect_of(0, 0, 200, 200)));
    let mut composites = CompositeRepository::new(&root);
    let mut compositor = Compositor::new();
    compositor.synchronize_composites(&layers, &mut composites);
    assert_eq!(composites.len(), 2);

    let b = layers.create_container_layer(&root, empty_container(rect_of(200, 0, 200, 200)));
    let a1 = layers.create_container_layer(&a, empty_container(rect_of(0, 0, 50, 50)));
    compositor.synchronize_composites(&layers, &mut composites);

    assert_eq!(composites.len(), 4);
    assert_eq!(composites.get_composite_by_id(&1).children, vec![2, 4]);
    assert_eq!(composites.get_composite_by_id(&2).source_layer_id, a);
    assert_eq!(composites.get_composite_by_id(&2).children, vec![3]);
    assert_eq!(composites.get_composite_by_id(&3).source_layer_id, a1);
    assert_eq!(composites.get_composite_by_id(&4).source_layer_id, b);
}

#[test]
fn synchronizing_rasterizes_each_container_as_it_is_now() {
    let mut layers = LayerRepository::new(Size::new(400, 400));
    let root = *layers.root_layer_id();
    let mut props = empty_container(rect_of(200, 200, 100, 100));
    props.fill = Some(green_fill());
    props.border = Some(inner_blue_border());
    layers.create_container_layer(&root, props);
    let mut composites = CompositeRepository::new(&root);
    let mut compositor = Compositor::new();
    compositor.synchronize_composites(&layers, &mut composites);

    let local = rect_of(0, 0, 100, 100);
    assert_eq!(
        composites.get_composite_by_id(&2).surface,
        Some(Surface {
            size: Size::new(100, 100),
            commands: vec![
                PaintCommand::Fill {
                    transform: Transform::identity(),
                    rect: local,
                    fill: green_fill()
                },
                PaintCommand::Stroke {
                    transform: Transform::identity(),
                    rect: local,
                    fill: blue(),
                    width: 10
                },
            ],
        })
    );
    assert_eq!(
        composites.get_composite_by_id(&1).surface,
        Some(Surface { size: Size::new(400, 400), commands: vec![] })
    );

    match layers.get_layer_by_id_mut(&2) {
        Layer::Container(props) => {
            props.fill = None;
            props.content_rect = rect_of(0, 0, 20, 30);
        }
        _ => panic!("layer 2 is a container"),
    }
    compositor.synchronize_composites(&layers, &mut composites);
    assert_eq!(composites.len(), 2);
    assert_eq!(
        composites.get_composite_by_id(&2).surface,
        Some(Surface {
            size: Size::new(20, 30),
            commands: vec![PaintCommand::Stroke {
                transform: Transform::identity(),
                rect: rect_of(0, 0, 20, 30),
                fill: blue(),
                width: 10
            }],
        })
    );
}

#[test]
fn a_new_compositor_has_no_extent() {
    assert_eq!(Compositor::new().size, Size::new(0, 0));
}

#[test]
fn a_taken_slot_keeps_its_binding_through_synchronization() {
    let mut layers = LayerRepository::new(Size::new(400, 400));
    let root = *layers.root_layer_id();
    let a = layers.create_container_layer(&root, empty_container(rect_of(0, 0, 200, 200)));
    let b = layers.create_container_layer(&root, empty_container(rect_of(200, 0, 100, 100)));

    // The first slot of the root composite is taken by a composite that
    // was made for `b`, the second container.
    let mut composites = CompositeRepository::new(&root);
    assert!(composites.create_nth_child_if_not_exists(&1, 0, &b, CompositingReason::NewCoordSystem));
    Compositor::new().synchronize_composites(&layers, &mut composites);

    // The walk arrives at `a` with that composite: it rasterizes `a` into
    // it and leaves its binding alone. `b` gets the next slot.
    assert_eq!(composites.len(), 3);
    assert_eq!(composites.get_composite_by_id(&1).children, vec![2, 3]);
    let stale = composites.get_composite_by_id(&2);
    assert_eq!(stale.source_layer_id, b);
    assert_eq!(stale.surface, Some(Surface { size: Size::new(200, 200), commands: vec![] }));
    let fresh = composites.get_composite_by_id(&3);
    assert_eq!(fresh.source_layer_id, b);
    assert_eq!(fresh.surface, Some(Surface { size: Size::new(100, 100), commands: vec![] }));
    assert!(layers.is_container(&a));
}
