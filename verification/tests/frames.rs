//! Frame ordering, the painter's resource-pool bound, the close
//! signal, and the spinning-sprite scenario.

use ecs_core::entity::CompId;
use ecs_core::frame::{continue_after, frame_step, should_continue, FrameEvent};
use ecs_core::paint::{DrawItem, DrawOp, PaintError, Painter};
use ecs_core::schedule::{Scheduler, System};
use ecs_core::visual::project;
use ecs_core::world::{EntityBuilder, World};

/// One component value of the demo: a transform position, a sprite
/// (position plus resource index), or the spinner marker.
#[derive(Clone, Copy, Debug)]
enum Comp {
    Pos { x: f32, y: f32 },
    Sprite { x: f32, y: f32, resource: usize },
    Spin,
}

/// Rotates every (Pos, Spin) entity by the frame delta (radians).
struct SpinSystem {
    pos: CompId,
    spin: CompId,
}

impl System<Comp, f32> for SpinSystem {
    fn run(&mut self, world: &mut World<Comp>, delta: f32) {
        let recs = project(world, &vec![self.pos, self.spin]);
        let (c, s) = (delta.cos(), delta.sin());
        for rec in recs {
            if let Comp::Pos { x, y } = rec.values[0] {
                world.insert_component(
                    self.pos,
                    rec.entity,
                    Comp::Pos { x: x * c - y * s, y: x * s + y * c },
                );
            }
        }
    }
}

/// Copies every (Sprite, Pos) entity's position into its sprite.
struct PreDrawSystem {
    sprite: CompId,
    pos: CompId,
}

impl System<Comp, f32> for PreDrawSystem {
    fn run(&mut self, world: &mut World<Comp>, _delta: f32) {
        let recs = project(world, &vec![self.sprite, self.pos]);
        for rec in recs {
            if let (Comp::Sprite { resource, .. }, Comp::Pos { x, y }) = (rec.values[0], rec.values[1]) {
                world.insert_component(self.sprite, rec.entity, Comp::Sprite { x, y, resource });
            }
        }
    }
}

/// Attaches the spinner marker to one entity (used as a one-shot).
struct AddSpinSystem {
    spin: CompId,
    target: ecs_core::entity::Entity,
}

impl System<Comp, f32> for AddSpinSystem {
    fn run(&mut self, world: &mut World<Comp>, _delta: f32) {
        world.insert_component(self.spin, self.target, Comp::Spin);
    }
}

enum DemoSystem {
    Spin(SpinSystem),
    PreDraw(PreDrawSystem),
    AddSpin(AddSpinSystem),
}

impl System<Comp, f32> for DemoSystem {
    fn run(&mut self, world: &mut World<Comp>, delta: f32) {
        match self {
            DemoSystem::Spin(s) => s.run(world, delta),
            DemoSystem::PreDraw(s) => s.run(world, delta),
            DemoSystem::AddSpin(s) => s.run(world, delta),
        }
    }
}

#[test]
fn rotate_quarter_turn_scenario() {
    let mut w: World<Comp> = World::new();
    let pos = w.register();
    let spin = w.register();
    let e = w.build_entity(
        EntityBuilder::new().with(pos, Comp::Pos { x: 1.0, y: 0.0 }).with(spin, Comp::Spin),
    );
    let mut sched: Scheduler<Comp, DemoSystem> = Scheduler::new(w);
    sched
        .add_system(
            DemoSystem::Spin(SpinSystem { pos, spin }),
            String::from("rotate"),
            10,
            vec![spin],
            vec![pos],
        )
        .unwrap();
    let theta = std::f32::consts::FRAC_PI_2;
    sched.dispatch(theta);
    match sched.world.get(pos, e) {
        Some(Comp::Pos { x, y }) => {
            assert!(x.abs() < 1e-5);
            assert!((y - 1.0).abs() < 1e-5);
        }
        other => panic!("expected a position, got {:?}", other),
    }
}

#[test]
fn frame_visuals_reflect_same_frame_updates() {
    let mut w: World<Comp> = World::new();
    let pos = w.register();
    let spin = w.register();
    let e = w.build_entity(
        EntityBuilder::new().with(pos, Comp::Pos { x: 1.0, y: 0.0 }).with(spin, Comp::Spin),
    );
    let mut sched: Scheduler<Comp, DemoSystem> = Scheduler::new(w);
    sched
        .add_system(
            DemoSystem::Spin(SpinSystem { pos, spin }),
            String::from("rotate"),
            10,
            vec![spin],
            vec![pos],
        )
        .unwrap();
    // the projection of the frame must see the rotated position, not
    // the value the frame started with
    let recs = frame_step(&mut sched, std::f32::consts::PI, &vec![pos]);
    assert_eq!(recs.len(), 1);
    assert_eq!(recs[0].entity, e);
    match recs[0].values[0] {
        Comp::Pos { x, y } => {
            assert!((x + 1.0).abs() < 1e-5);
            assert!(y.abs() < 1e-5);
        }
        other => panic!("expected a position, got {:?}", other),
    }
}

#[test]
fn painter_emits_clear_then_draws_in_order() {
    let painter = Painter::new(3);
    let items = vec![DrawItem::new(2, 10i64), DrawItem::new(0, 20i64)];
    let ops = painter.paint(&items).unwrap();
    assert_eq!(ops.len(), 3);
    assert!(matches!(ops[0], DrawOp::Clear));
    assert!(matches!(ops[1], DrawOp::Draw { resource: 2, data: 10 }));
    assert!(matches!(ops[2], DrawOp::Draw { resource: 0, data: 20 }));
}

#[test]
fn painter_rejects_out_of_range_resource_index() {
    let painter = Painter::new(2);
    // index 2 with a pool of size 2 is one past the end
    let items = vec![DrawItem::new(0, 1i64), DrawItem::new(2, 2i64)];
    let r = painter.paint(&items);
    assert_eq!(
        r.err(),
        Some(PaintError::ResourceOutOfRange { position: 1, resource: 2, pool_size: 2 })
    );
}

#[test]
fn painter_accepts_empty_frame() {
    let painter = Painter::new(0);
    let items: Vec<DrawItem<i64>> = Vec::new();
    let ops = painter.paint(&items).unwrap();
    assert_eq!(ops.len(), 1);
    assert!(matches!(ops[0], DrawOp::Clear));
}

#[test]
fn close_signal_stops_the_loop() {
    assert!(should_continue(&FrameEvent::Other));
    assert!(!should_continue(&FrameEvent::CloseRequested));
    assert!(continue_after(&vec![]));
    assert!(continue_after(&vec![FrameEvent::Other, FrameEvent::Other]));
    assert!(!continue_after(&vec![FrameEvent::Other, FrameEvent::CloseRequested]));
}

#[test]
fn spinning_sprites_full_frame() {
    // two sprites as in the demo: only one spins; the pre-draw system
    // runs later (higher priority value) and copies positions into the
    // sprites the painter will read
    let mut w: World<Comp> = World::new();
    let pos = w.register();
    let spin = w.register();
    let sprite = w.register();
    let duck = w.build_entity(
        EntityBuilder::new()
            .with(pos, Comp::Pos { x: 0.5, y: 0.0 })
            .with(sprite, Comp::Sprite { x: 0.5, y: 0.0, resource: 0 }),
    );
    let crab = w.build_entity(
        EntityBuilder::new()
            .with(pos, Comp::Pos { x: -0.5, y: 0.0 })
            .with(sprite, Comp::Sprite { x: -0.5, y: 0.0, resource: 1 }),
    );
    let mut sched: Scheduler<Comp, DemoSystem> = Scheduler::new(w);
    sched
        .add_system(
            DemoSystem::Spin(SpinSystem { pos, spin }),
            String::from("move"),
            20,
            vec![spin],
            vec![pos],
        )
        .unwrap();
    sched
        .add_system(
            DemoSystem::PreDraw(PreDrawSystem { sprite, pos }),
            String::from("pre_draw"),
            25,
            vec![pos],
            vec![sprite],
        )
        .unwrap();
    // the crab starts spinning via a one-shot queued from outside,
    // carrying the entity id captured at setup
    sched
        .run_custom(
            DemoSystem::AddSpin(AddSpinSystem { spin, target: crab }),
            vec![],
            vec![spin],
        )
        .unwrap();
    let recs = frame_step(&mut sched, 0.0, &vec![sprite]);
    assert_eq!(recs.len(), 2);

    let theta = std::f32::consts::FRAC_PI_2;
    let recs = frame_step(&mut sched, theta, &vec![sprite]);
    assert_eq!(recs.len(), 2);
    let mut items: Vec<DrawItem<(f32, f32)>> = Vec::new();
    for rec in &recs {
        if let Comp::Sprite { x, y, resource } = rec.values[0] {
            items.push(DrawItem::new(resource, (x, y)));
        }
    }
    let painter = Painter::new(2);
    let ops = painter.paint(&items).unwrap();
    assert_eq!(ops.len(), 3);
    assert!(matches!(ops[0], DrawOp::Clear));
    // the duck never spun; the crab rotated a quarter turn
    let mut saw_duck = false;
    let mut saw_crab = false;
    for rec in &recs {
        if let Comp::Sprite { x, y, .. } = rec.values[0] {
            if rec.entity == duck {
                assert!((x - 0.5).abs() < 1e-5 && y.abs() < 1e-5);
                saw_duck = true;
            }
            if rec.entity == crab {
                assert!(x.abs() < 1e-5 && (y + 0.5).abs() < 1e-5);
                saw_crab = true;
            }
        }
    }
    assert!(saw_duck && saw_crab);
}
