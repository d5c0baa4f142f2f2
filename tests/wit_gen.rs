use std::cell::Cell;
use std::rc::Rc;

use halo2_proofs::arithmetic::Field;
use halo2_proofs::pasta::Fp;
use wit_gen::fixed::FixedGenContext;
use wit_gen::signal::{Queriable, QueriableKind};
use wit_gen::step::{StepInstance, TraceWitness};
use wit_gen::text::index_width_of;
use wit_gen::trace::{StepTypeWGHandler, TraceContext, TraceGenerator};

fn dummy_args_fn() {}

fn fixed(uuid: u128) -> Queriable {
    Queriable { uuid, rotation: 0, kind: QueriableKind::Fixed }
}

fn internal(uuid: u128) -> Queriable {
    Queriable { uuid, rotation: 0, kind: QueriableKind::Internal }
}

fn value_of<F: Copy>(step: &StepInstance<F>, q: Queriable) -> Option<F> {
    step.assignments.iter().find(|(k, _)| *k == q).map(|(_, v)| *v)
}

#[test]
fn test_padding_no_witness() {
    let mut ctx = TraceContext::new(5);
    let step = StepTypeWGHandler::new(1, "dummy", |_: &mut StepInstance<i32>, _: ()| {});

    assert_eq!(ctx.witness().step_instances.len(), 0);
    ctx.padding(&step, dummy_args_fn);

    assert_eq!(ctx.witness().step_instances.len(), 5);
}

#[test]
fn test_padding_partial_witness() {
    let mut ctx = TraceContext::new(5);
    let step = StepTypeWGHandler::new(1, "dummy", |_: &mut StepInstance<i32>, _: ()| {});

    dummy_args_fn();
    ctx.add(&step, ());

    assert_eq!(ctx.witness().step_instances.len(), 1);
    ctx.padding(&step, dummy_args_fn);

    assert_eq!(ctx.witness().step_instances.len(), 5);
}

#[test]
fn test_trace_witness_display() {
    let left = TraceWitness::<i32> {
        step_instances: vec![
            StepInstance { step_type_uuid: 9, assignments: vec![(fixed(1), 1), (fixed(2), 2)] },
            StepInstance { step_type_uuid: 10, assignments: vec![(fixed(1), 1), (fixed(2), 2)] },
        ],
    }
    .render();
    // the order of the assignments within a line is not to be relied on
    println!("{}", left);
}

#[test]
fn render_two_rows_pads_index_to_width_two() {
    let text = TraceWitness::<i32> {
        step_instances: vec![
            StepInstance { step_type_uuid: 9, assignments: vec![(fixed(1), 1), (fixed(2), 2)] },
            StepInstance { step_type_uuid: 10, assignments: vec![(fixed(1), 1), (fixed(2), 2)] },
        ],
    }
    .render();
    let lines: Vec<&str> = text.lines().collect();
    assert_eq!(lines.len(), 2);
    assert!(lines[0].starts_with("00(9): "));
    assert!(lines[1].starts_with("01(10): "));
    assert_eq!(lines[0].matches(" = ").count(), 2);
    assert!(lines[0].contains(" = 1, "));
    assert!(lines[0].contains(" = 2, "));
    assert!(text.ends_with('\n'));
}

#[test]
fn render_width_grows_with_assignment_count() {
    let mut assignments = Vec::new();
    for k in 0..10u128 {
        assignments.push((internal(k), k as i32));
    }
    let text = TraceWitness::<i32> {
        step_instances: vec![
            StepInstance { step_type_uuid: 3, assignments },
            StepInstance { step_type_uuid: 4, assignments: vec![] },
        ],
    }
    .render();
    let lines: Vec<&str> = text.lines().collect();
    assert_eq!(lines[0].split('(').next(), Some("000"));
    assert_eq!(lines[1], "01(4): ");
}

#[test]
fn render_empty_witness_is_empty() {
    let text = TraceWitness::<i32> { step_instances: vec![] }.render();
    assert_eq!(text, "");
}

#[test]
fn index_width_formula() {
    assert_eq!(index_width_of(0), 2);
    assert_eq!(index_width_of(1), 2);
    assert_eq!(index_width_of(9), 2);
    assert_eq!(index_width_of(10), 3);
    assert_eq!(index_width_of(99), 3);
    assert_eq!(index_width_of(100), 4);
    assert_eq!(index_width_of(usize::MAX), 21);
}

#[test]
fn step_assign_keeps_last_value() {
    let mut step: StepInstance<i32> = StepInstance::new(7);
    step.assign(internal(1), 10);
    step.assign(internal(2), 20);
    step.assign(internal(1), 30);
    assert_eq!(step.step_type_uuid, 7);
    assert_eq!(step.assignments.len(), 2);
    assert_eq!(value_of(&step, internal(1)), Some(30));
    assert_eq!(value_of(&step, internal(2)), Some(20));
}

#[test]
fn step_assign_tells_rotations_apart() {
    let mut step: StepInstance<i32> = StepInstance::new(7);
    let next = Queriable { uuid: 1, rotation: 1, kind: QueriableKind::Internal };
    step.assign(internal(1), 1);
    step.assign(next, 2);
    assert_eq!(step.assignments.len(), 2);
    assert_eq!(value_of(&step, next), Some(2));
}

#[test]
fn padding_without_add_gives_empty_rows() {
    let mut ctx = TraceContext::new(5);
    let step = StepTypeWGHandler::new(42, "nothing", |_: &mut StepInstance<i32>, _: ()| {});
    ctx.padding(&step, dummy_args_fn);
    let rows = ctx.get_witness().step_instances;
    assert_eq!(rows.len(), 5);
    for row in rows.iter() {
        assert_eq!(row.step_type_uuid, 42);
        assert!(row.assignments.is_empty());
    }
}

#[test]
fn padding_after_add_uses_padding_handler() {
    let mut ctx = TraceContext::new(5);
    let h1 = StepTypeWGHandler::new(1, "first", |s: &mut StepInstance<i32>, v: i32| {
        s.assign(internal(1), v)
    });
    let h2 = StepTypeWGHandler::new(2, "pad", |_: &mut StepInstance<i32>, _: i32| {});
    ctx.add(&h1, 11);
    ctx.padding(&h2, || 0);
    let rows = ctx.get_witness().step_instances;
    assert_eq!(rows.len(), 5);
    assert_eq!(rows[0].step_type_uuid, 1);
    assert_eq!(value_of(&rows[0], internal(1)), Some(11));
    for row in rows[1..].iter() {
        assert_eq!(row.step_type_uuid, 2);
        assert!(row.assignments.is_empty());
    }
}

#[test]
fn padding_at_or_past_target_changes_nothing() {
    let mut ctx = TraceContext::new(2);
    let h = StepTypeWGHandler::new(1, "row", |s: &mut StepInstance<i32>, v: i32| {
        s.assign(internal(1), v)
    });
    let pad = StepTypeWGHandler::new(2, "pad", |_: &mut StepInstance<i32>, _: i32| {});
    ctx.add(&h, 1);
    ctx.add(&h, 2);
    ctx.add(&h, 3);
    ctx.padding(&pad, || 0);
    let rows = ctx.get_witness().step_instances;
    assert_eq!(rows.len(), 3);
    for (i, row) in rows.iter().enumerate() {
        assert_eq!(row.step_type_uuid, 1);
        assert_eq!(value_of(row, internal(1)), Some(i as i32 + 1));
    }
}

#[test]
fn padding_keeps_prefix_and_calls_args_fn_per_row() {
    let mut ctx = TraceContext::new(4);
    let h = StepTypeWGHandler::new(1, "row", |s: &mut StepInstance<i32>, v: i32| {
        s.assign(internal(1), v)
    });
    ctx.add(&h, 100);
    let counter = Cell::new(0);
    ctx.padding(&h, || {
        counter.set(counter.get() + 1);
        counter.get()
    });
    let rows = ctx.get_witness().step_instances;
    assert_eq!(rows.len(), 4);
    assert_eq!(counter.get(), 3);
    assert_eq!(value_of(&rows[0], internal(1)), Some(100));
    assert_eq!(value_of(&rows[1], internal(1)), Some(1));
    assert_eq!(value_of(&rows[2], internal(1)), Some(2));
    assert_eq!(value_of(&rows[3], internal(1)), Some(3));
}

#[test]
fn generator_and_clone_run_independently() {
    let h = StepTypeWGHandler::new(5, "row", |s: &mut StepInstance<u64>, v: u64| {
        s.assign(internal(1), v)
    });
    let trace = move |ctx: &mut TraceContext<u64>, n: u64| {
        for i in 0..n {
            ctx.add(&h, i);
        }
        ctx.padding(&h, || 99);
    };
    let gen = TraceGenerator::new(Rc::new(trace), 4);
    let copy = gen.clone();
    let a = gen.generate(1);
    let b = copy.generate(3);
    let c = gen.generate(1);
    assert_eq!(a.step_instances.len(), 4);
    assert_eq!(b.step_instances.len(), 4);
    let col = |w: &TraceWitness<u64>| -> Vec<Option<u64>> {
        w.step_instances.iter().map(|r| value_of(r, internal(1))).collect()
    };
    assert_eq!(col(&a), vec![Some(0), Some(99), Some(99), Some(99)]);
    assert_eq!(col(&b), vec![Some(0), Some(1), Some(2), Some(99)]);
    assert_eq!(col(&c), col(&a));
}

#[test]
fn generator_with_zero_rows_and_no_steps_is_empty() {
    let gen = TraceGenerator::new(Rc::new(|_: &mut TraceContext<u64>, _: ()| {}), 0);
    assert!(gen.generate(()).step_instances.is_empty());
}

fn column<F: Copy>(cols: &[(Queriable, Vec<F>)], q: Queriable) -> Option<Vec<F>> {
    cols.iter().find(|(k, _)| *k == q).map(|(_, v)| v.clone())
}

#[test]
fn fixed_columns_default_to_zero() {
    let mut ctx: FixedGenContext<u64> = FixedGenContext::new(4);
    ctx.assign(2, fixed(1), 7);
    let cols = ctx.get_assignments();
    assert_eq!(cols.len(), 1);
    assert_eq!(column(&cols, fixed(1)), Some(vec![0, 0, 7, 0]));
}

#[test]
fn fixed_last_write_wins_per_row() {
    let mut ctx: FixedGenContext<u64> = FixedGenContext::new(3);
    ctx.assign(0, fixed(1), 5);
    ctx.assign(2, fixed(2), 8);
    ctx.assign(0, fixed(1), 6);
    ctx.assign(1, fixed(1), 9);
    let cols = ctx.get_assignments();
    assert_eq!(cols.len(), 2);
    assert_eq!(column(&cols, fixed(1)), Some(vec![6, 9, 0]));
    assert_eq!(column(&cols, fixed(2)), Some(vec![0, 0, 8]));
    assert_eq!(column(&cols, fixed(3)), None);
}

#[test]
fn fixed_untouched_context_is_empty() {
    let ctx: FixedGenContext<u64> = FixedGenContext::new(3);
    assert!(ctx.get_assignments().is_empty());
}

#[test]
fn fixed_pallas_field_zero_fill() {
    let mut ctx: FixedGenContext<Fp> = FixedGenContext::new(3);
    let v = Fp::from(12u64);
    ctx.assign(1, fixed(4), v);
    let col = column(&ctx.get_assignments(), fixed(4)).unwrap();
    assert_eq!(col, vec![Fp::ZERO, v, Fp::ZERO]);
    assert_ne!(col[0], Fp::ONE);
}

#[test]
fn queriable_kind_decides_fixed() {
    assert!(fixed(1).is_fixed());
    assert!(!internal(1).is_fixed());
    let advice = Queriable { uuid: 1, rotation: 0, kind: QueriableKind::Halo2Advice };
    assert!(!advice.is_fixed());
}

#[test]
fn default_generator_gives_empty_witness() {
    let gen: TraceGenerator<u64, u64, fn(&mut TraceContext<u64>, u64)> = TraceGenerator::default();
    assert!(gen.generate(3).step_instances.is_empty());
    assert!(gen.clone().generate(4).step_instances.is_empty());
}

#[test]
fn handler_reports_its_step_type() {
    let h = StepTypeWGHandler::new(77, "named", |_: &mut StepInstance<u64>, _: ()| {});
    assert_eq!(h.uuid(), 77);
    assert_eq!(h.annotation, "named");
}
