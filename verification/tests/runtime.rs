use ls9_core::cell::{Cell, SpecialObject, TypeTag};
use ls9_core::error::Error;
use ls9_core::pool::Pool;
use ls9_core::ports::{get_outport, set_outport, Outport, PortKind, PortTable};
use ls9_core::tag::{Tag, ATOM_FLAG, CONST_FLAG, VECTOR_FLAG};
use ls9_core::vm::{Instr, Vm};

fn small_heap() -> (Pool, PortTable) {
    (Pool::new(4096, 256), PortTable::new(20))
}

#[test]
fn cell_partitions() {
    let c = Cell::new(7);
    assert!(!c.is_special());
    assert_eq!(c.value(), 7);
    let nil = Cell::special(SpecialObject::Nil);
    assert!(nil.is_special());
    assert_eq!(nil.as_special(), Some(SpecialObject::Nil));
    assert_eq!(nil.as_type_tag(), None);
    let fixtag = Cell::type_tag(TypeTag::Fixnum);
    assert!(fixtag.is_type_tag());
    assert_eq!(fixtag.as_type_tag(), Some(TypeTag::Fixnum));
    assert_eq!(Cell::new(0).as_special(), None);
}

#[test]
fn tag_flags() {
    let mut t = Tag::new();
    assert_eq!(t.raw(), 0);
    t.set_flag(ATOM_FLAG);
    assert!(t.has_flag(ATOM_FLAG));
    t.clear_flag(ATOM_FLAG);
    assert!(!t.has_flag(ATOM_FLAG));
    let t2 = Tag::new().with_flag(CONST_FLAG);
    assert!(t2.has_flag(CONST_FLAG));
}

#[test]
fn cons_and_accessors() {
    let (mut pool, mut ports) = small_heap();
    let roots: Vec<Cell> = Vec::new();
    let inner = pool
        .cons(Cell::new(-1), Cell::new(-1), &roots, &mut ports)
        .unwrap();
    let outer = pool.cons(inner, inner, &roots, &mut ports).unwrap();
    assert_eq!(pool.car(outer.value() as usize), inner);
    assert_eq!(pool.cdr(outer.value() as usize), inner);
    assert_eq!(pool.caar(outer.value() as usize).value(), -1);
    assert_eq!(pool.cadr(outer.value() as usize).value(), -1);
    assert_eq!(pool.cddr(outer.value() as usize).value(), -1);
}

#[test]
fn const_cells_reject_mutation() {
    let (mut pool, mut ports) = small_heap();
    let roots: Vec<Cell> = Vec::new();
    let lit = pool
        .cons3(Cell::new(-1), Cell::new(-1), CONST_FLAG, &roots, &mut ports)
        .unwrap();
    let idx = lit.value() as usize;
    assert_eq!(pool.set_car(idx, Cell::new(-2)), Err(Error::ConstMutation));
    assert_eq!(pool.set_cdr(idx, Cell::new(-2)), Err(Error::ConstMutation));
    // the cell is unchanged
    assert_eq!(pool.car(idx).value(), -1);
    assert_eq!(pool.cdr(idx).value(), -1);
    // a const vector atom rejects slot writes the same way
    let cv = pool
        .cons3(
            Cell::type_tag(TypeTag::Vector),
            Cell::new(0),
            ATOM_FLAG | VECTOR_FLAG | CONST_FLAG,
            &roots,
            &mut ports,
        )
        .unwrap();
    assert_eq!(
        pool.vset(cv.value() as usize, 0, Cell::new(-2)),
        Err(Error::ConstMutation)
    );
    // an ordinary pair accepts mutation
    let p = pool
        .cons(Cell::new(-1), Cell::new(-1), &roots, &mut ports)
        .unwrap();
    assert_eq!(pool.set_car(p.value() as usize, Cell::new(-4)), Ok(()));
    assert_eq!(pool.car(p.value() as usize).value(), -4);
}

#[test]
fn collect_preserves_roots_and_frees_garbage() {
    let mut pool = Pool::new(64, 32);
    let mut ports = PortTable::new(4);
    let none: Vec<Cell> = Vec::new();
    let keep_tail = pool.cons(Cell::new(-2), Cell::new(-1), &none, &mut ports).unwrap();
    let keep = pool.cons(Cell::new(-4), keep_tail, &none, &mut ports).unwrap();
    let mut garbage = Vec::new();
    for _k in 0..20 {
        let g = pool
            .cons(Cell::new(-2), Cell::new(-1), &none, &mut ports)
            .unwrap();
        garbage.push(g.value() as usize);
    }
    let roots = vec![keep];
    pool.collect(&roots, &mut ports);
    // the rooted chain is intact, with the same logical values
    assert_eq!(pool.car(keep.value() as usize).value(), -4);
    assert_eq!(pool.cdr(keep.value() as usize), keep_tail);
    assert_eq!(pool.car(keep_tail.value() as usize).value(), -2);
    // every garbage cell went back to the free list (not used)
    for g in garbage {
        assert!(!pool.tag(g).has_flag(ls9_core::tag::USED_FLAG));
    }
    // repeated cycles neither leak nor double-free: a rooted chain
    // fills the heap to the same point every round, and each round's
    // chain is reclaimed once it is dropped from the roots
    for _round in 0..3 {
        let mut prev = Cell::new(-1);
        let mut count = 0usize;
        loop {
            let chain_roots = vec![keep, prev];
            match pool.cons(Cell::new(-2), prev, &chain_roots, &mut ports) {
                Ok(c) => {
                    prev = c;
                    count += 1;
                }
                Err(e) => {
                    assert_eq!(e, Error::HeapExhausted);
                    break;
                }
            }
        }
        assert_eq!(count, 62); // everything but the two rooted cells
    }
}

#[test]
fn locked_cells_survive_collection() {
    let mut pool = Pool::new(64, 32);
    let mut ports = PortTable::new(4);
    let none: Vec<Cell> = Vec::new();
    let pinned = pool
        .cons3(
            Cell::new(-2),
            Cell::new(-1),
            ls9_core::tag::LOCK_FLAG,
            &none,
            &mut ports,
        )
        .unwrap();
    pool.collect(&none, &mut ports);
    assert!(pool.tag(pinned.value() as usize).has_flag(ls9_core::tag::USED_FLAG));
    assert_eq!(pool.car(pinned.value() as usize).value(), -2);
}

#[test]
fn port_lifecycle() {
    let mut ports = PortTable::new(3);
    let a = ports.open_port(PortKind::Input).unwrap();
    let b = ports.open_port(PortKind::Output).unwrap();
    let c = ports.open_port(PortKind::Output).unwrap();
    assert_eq!((a, b, c), (0, 1, 2));
    assert_eq!(ports.open_port(PortKind::Input), Err(Error::PortTableFull));
    // closing frees the slot and is idempotent
    ports.close_port(1);
    ports.close_port(1);
    assert!(!ports.is_open(1));
    // a subsequent open reuses the freed slot
    assert_eq!(ports.open_port(PortKind::Input).unwrap(), 1);
    // stale or out-of-range references never silently succeed
    assert!(!ports.is_open(17));
    ports.close_port(17);
    assert_eq!(ports.capacity(), 3);
}

#[test]
fn outport_selection() {
    let mut ports = PortTable::new(2);
    assert_eq!(get_outport(&ports), Outport::Stdout);
    set_outport(&mut ports, Outport::Stderr);
    assert_eq!(get_outport(&ports), Outport::Stderr);
    set_outport(&mut ports, Outport::Stdout);
    assert_eq!(get_outport(&ports), Outport::Stdout);
}

#[test]
fn string_bytes_round_trip() {
    let (mut pool, mut ports) = small_heap();
    let roots: Vec<Cell> = Vec::new();
    let text: Vec<u8> = b"done".to_vec();
    let s = pool.make_string(&text, &roots, &mut ports).unwrap();
    let back = pool.string(s.value() as usize).unwrap();
    assert_eq!(back, text);
    // portno reads the payload of a port atom
    let p = pool
        .mkatom(TypeTag::Inport, Cell::new(3), &roots, &mut ports)
        .unwrap();
    assert_eq!(pool.portno(p.value() as usize).value(), 3);
}

/// The compiled form of `(define (loop n) (if (= n 0) 'done (loop (- n 1))))`
/// applied to `n0`, with `done_sym` as the quoted symbol.
fn loop_program(pool: &mut Pool, ports: &mut PortTable, n0: i32) -> (Vec<Instr>, Vec<Cell>, Cell) {
    let none: Vec<Cell> = Vec::new();
    let undef = Cell::special(SpecialObject::Undef);
    let n_lit = pool
        .mkatom(TypeTag::Fixnum, Cell::new(n0), &none, ports)
        .unwrap();
    let zero = pool
        .mkatom(TypeTag::Fixnum, Cell::new(0), &none, ports)
        .unwrap();
    let one = pool
        .mkatom(TypeTag::Fixnum, Cell::new(1), &none, ports)
        .unwrap();
    let done_sym = pool
        .mkatom(TypeTag::Symbol, Cell::new(0), &none, ports)
        .unwrap();
    let lits = vec![undef, n_lit, zero, one, done_sym];
    let program = vec![
        Instr::Quote(0),    // 0: placeholder for the self-binding
        Instr::Mkenv(1),    // 1
        Instr::Enter,       // 2
        Instr::Closure(10), // 3
        Instr::Setarg(0),   // 4: bind the closure to itself
        Instr::Arg(0),      // 5
        Instr::Quote(1),    // 6: n0
        Instr::Mkenv(1),    // 7
        Instr::Apply,       // 8
        Instr::Halt,        // 9
        Instr::Arg(0),      // 10: n
        Instr::Quote(2),    // 11: 0
        Instr::Equal,       // 12
        Instr::Brf(16),     // 13
        Instr::Quote(4),    // 14: 'done
        Instr::Return,      // 15
        Instr::Ref(1, 0),   // 16: the closure itself
        Instr::Arg(0),      // 17: n
        Instr::Quote(3),    // 18: 1
        Instr::Minus,       // 19
        Instr::Mkenv(1),    // 20
        Instr::Tailapp,     // 21
    ];
    (program, lits, done_sym)
}

#[test]
fn tail_loop_small() {
    let (mut pool, mut ports) = small_heap();
    let (program, lits, done_sym) = loop_program(&mut pool, &mut ports, 5);
    let mut vm = Vm::new(pool, ports, program, lits);
    let r = vm.run(10_000).unwrap();
    assert_eq!(r, Some(done_sym));
    assert_eq!(vm.frames.len(), 0);
}

#[test]
fn tail_loop_large_runs_in_constant_space() {
    // far beyond any plausible call-stack limit: only proper tail
    // calls let this finish in a heap of 4096 nodes
    let mut pool = Pool::new(512, 2048);
    let mut ports = PortTable::new(8);
    let (program, lits, done_sym) = loop_program(&mut pool, &mut ports, 1_000_000);
    let mut vm = Vm::new(pool, ports, program, lits);
    let r = vm.run(20_000_000).unwrap();
    assert_eq!(r, Some(done_sym));
    assert_eq!(vm.frames.len(), 0);
    assert!(vm.stack.len() <= 2);
}

#[test]
fn car_of_nil_is_an_error() {
    let (mut pool, mut ports) = small_heap();
    let none: Vec<Cell> = Vec::new();
    let _ = pool
        .mkatom(TypeTag::Fixnum, Cell::new(0), &none, &mut ports)
        .unwrap();
    let lits = vec![Cell::special(SpecialObject::Nil)];
    let program = vec![Instr::Quote(0), Instr::Car, Instr::Halt];
    let mut vm = Vm::new(pool, ports, program, lits);
    assert_eq!(vm.run(100), Err(Error::TypeError));
}

#[test]
fn catch_and_throw_restore_the_catch_point() {
    let (mut pool, mut ports) = small_heap();
    let none: Vec<Cell> = Vec::new();
    let nine = pool
        .mkatom(TypeTag::Fixnum, Cell::new(9), &none, &mut ports)
        .unwrap();
    let lits = vec![nine];
    let program = vec![
        Instr::Catchstar(5), // 0: push tag, record depth 0
        Instr::Quote(0),     // 1: the value to throw
        Instr::Throwstar,    // 2: unwind back past this point
        Instr::Pushtrue,     // 3: skipped
        Instr::Halt,         // 4: skipped
        Instr::Halt,         // 5: resume here with [nine]
    ];
    let mut vm = Vm::new(pool, ports, program, lits);
    let r = vm.run(100).unwrap();
    assert_eq!(r, Some(nine));
    assert_eq!(vm.stack.len(), 1);
    assert_eq!(vm.catches.len(), 0);
}

#[test]
fn uncaught_throw_reaches_top_level() {
    let (mut pool, mut ports) = small_heap();
    let none: Vec<Cell> = Vec::new();
    let nine = pool
        .mkatom(TypeTag::Fixnum, Cell::new(9), &none, &mut ports)
        .unwrap();
    let lits = vec![nine];
    let program = vec![
        Instr::Quote(0),
        Instr::Quote(0),
        Instr::Throwstar,
        Instr::Halt,
    ];
    let mut vm = Vm::new(pool, ports, program, lits);
    assert_eq!(vm.run(100), Err(Error::UncaughtThrow));
}

#[test]
fn arithmetic_and_predicates() {
    let (mut pool, mut ports) = small_heap();
    let none: Vec<Cell> = Vec::new();
    let two = pool
        .mkatom(TypeTag::Fixnum, Cell::new(2), &none, &mut ports)
        .unwrap();
    let three = pool
        .mkatom(TypeTag::Fixnum, Cell::new(3), &none, &mut ports)
        .unwrap();
    let lits = vec![two, three];
    // 2 + 3
    let program = vec![Instr::Quote(0), Instr::Quote(1), Instr::Plus, Instr::Halt];
    let mut vm = Vm::new(pool, ports, program, lits);
    let r = vm.run(100).unwrap().unwrap();
    let idx = r.value() as usize;
    assert_eq!(vm.pool.cdr(idx).value(), 5);
    // overflow is an error, not a wrap
    let none2: Vec<Cell> = Vec::new();
    let big = vm
        .pool
        .mkatom(TypeTag::Fixnum, Cell::new(i32::MAX), &none2, &mut vm.ports)
        .unwrap();
    let lits2 = vec![big];
    let program2 = vec![Instr::Quote(0), Instr::Quote(0), Instr::Plus, Instr::Halt];
    let mut vm2 = Vm::new(vm.pool, vm.ports, program2, lits2);
    assert_eq!(vm2.run(100), Err(Error::Overflow));
}

#[test]
fn image_round_trip_reproduces_results() {
    // define a value, dump, load in a fresh pool, and the loaded heap
    // evaluates identically
    let mut pool = Pool::new(512, 64);
    let mut ports = PortTable::new(4);
    let none: Vec<Cell> = Vec::new();
    let forty_one = pool
        .mkatom(TypeTag::Fixnum, Cell::new(41), &none, &mut ports)
        .unwrap();
    let one = pool
        .mkatom(TypeTag::Fixnum, Cell::new(1), &none, &mut ports)
        .unwrap();
    let data = pool.dump_image().unwrap();
    let loaded = ls9_core::image::load_image(&data).unwrap();
    // the loaded heap holds the same nodes: dumping again is identical
    let data2 = loaded.dump_image().unwrap();
    assert_eq!(data, data2);
    // and running 41 + 1 on the loaded heap gives 42, as it does live
    let lits = vec![forty_one, one];
    let program = vec![Instr::Quote(0), Instr::Quote(1), Instr::Plus, Instr::Halt];
    let mut vm = Vm::new(loaded, PortTable::new(4), program, lits);
    let r = vm.run(100).unwrap().unwrap();
    assert_eq!(vm.pool.cdr(r.value() as usize).value(), 42);
}

#[test]
fn malformed_images_are_rejected() {
    let mut pool = Pool::new(16, 8);
    let mut ports = PortTable::new(2);
    let none: Vec<Cell> = Vec::new();
    let _ = pool
        .mkatom(TypeTag::Fixnum, Cell::new(7), &none, &mut ports)
        .unwrap();
    let good = pool.dump_image().unwrap();
    // wrong magic
    let mut bad = good.clone();
    bad[0] = 0;
    assert!(matches!(ls9_core::image::load_image(&bad), Err(Error::BadImage)));
    // wrong version
    let mut bad2 = good.clone();
    bad2[1] = 99;
    assert!(matches!(ls9_core::image::load_image(&bad2), Err(Error::BadImage)));
    // truncated
    let mut bad3 = good.clone();
    bad3.pop();
    assert!(matches!(ls9_core::image::load_image(&bad3), Err(Error::BadImage)));
    // a capacity lie is a size mismatch
    let mut bad4 = good.clone();
    bad4[2] += 1;
    assert!(matches!(ls9_core::image::load_image(&bad4), Err(Error::BadImage)));
}

#[test]
fn vm_port_opcodes() {
    let (mut pool, mut ports) = small_heap();
    let none: Vec<Cell> = Vec::new();
    let slot = ports.open_port(PortKind::Output).unwrap();
    let port_atom = pool
        .mkatom(TypeTag::Outport, Cell::new(slot as i32), &none, &mut ports)
        .unwrap();
    let two = pool
        .mkatom(TypeTag::Fixnum, Cell::new(2), &none, &mut ports)
        .unwrap();
    let lits = vec![port_atom, two];
    let program = vec![
        Instr::Quote(1),
        Instr::Setoutport, // select stderr
        Instr::Quote(0),
        Instr::Closeport, // close the open slot
        Instr::Halt,
    ];
    let mut vm = Vm::new(pool, ports, program, lits);
    let r = vm.run(100).unwrap();
    assert!(r.is_some());
    assert!(!vm.ports.is_open(slot));
    assert_eq!(get_outport(&vm.ports), Outport::Stderr);
}
