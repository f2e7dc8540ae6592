//! Tests for the type checker, ported over the named builder surface and
//! complemented with end-to-end scenarios.

use kernel::arena::Arena;
use kernel::builder::{abs, app, decl, prod, prop, type_usize, var, Builder};
use kernel::builtin::{Axiom, False};
use kernel::error::{Error, Kind, Trace};
use kernel::level::Level;
use kernel::term::{Declaration, Term};
use kernel::builder::LevelBuilder as L;
use kernel::type_checker::{ErrorKind, TypedTerm};

fn id() -> Builder {
    abs("x", prop(), var("x"))
}

#[test]
fn def_eq_1() {
    let mut arena = Arena::new();
    let term = arena.build(&app(abs("y", prop(), id()), id())).unwrap();
    let normal_form = arena.build(&id()).unwrap();
    assert!(term.is_def_eq(normal_form, &mut arena).is_ok());
}

#[test]
fn def_eq_2() {
    let mut arena = Arena::new();
    let term = arena
        .build(&app(abs("a", prop(), abs("b", prop(), var("a"))), id()))
        .unwrap();
    let normal_form = arena.build(&abs("b", prop(), id())).unwrap();
    assert!(term.is_def_eq(normal_form, &mut arena).is_ok());
}

#[test]
fn def_eq_self() {
    let mut arena = Arena::new();
    // λa. a (λx. x) (λx. x)
    let term = arena
        .build(&abs("a", prop(), app(app(var("a"), id()), id())))
        .unwrap();
    assert!(term.is_def_eq(term, &mut arena).is_ok());
}

#[test]
fn conv_decl() {
    let mut arena = Arena::new();
    let p = Term::prop(&mut arena);
    let term = Term::decl(Declaration(p, 0), &Vec::new(), &mut arena);
    let p2 = Term::prop(&mut arena);
    assert!(term.is_def_eq(p2, &mut arena).is_ok());
    assert!(p2.is_def_eq(term, &mut arena).is_ok());
}

#[test]
fn infer_decl() {
    let mut arena = Arena::new();
    let p = Term::prop(&mut arena);
    let term = Term::decl(Declaration(p, 0), &Vec::new(), &mut arena);
    let ty = Term::type_usize(0, &mut arena);
    assert!(term.check(ty, &mut arena).is_ok());
}

#[test]
fn failed_def_equal() {
    let mut arena = Arena::new();
    let term_lhs = Term::prop(&mut arena);
    let term_rhs = Term::type_usize(0, &mut arena);
    assert_eq!(
        term_lhs.is_def_eq(term_rhs, &mut arena),
        Err(Error {
            kind: Kind::TypeChecker(ErrorKind::NotDefEq(term_lhs, term_rhs)),
            trace: vec![],
        })
    );
}

#[test]
fn failed_prod_binder_conversion() {
    let mut arena = Arena::new();
    let term_lhs = arena.build(&prod("x", prop(), prop())).unwrap();
    let term_rhs = arena.build(&prod("x", type_usize(0), prop())).unwrap();
    assert_eq!(
        term_lhs.is_def_eq(term_rhs, &mut arena),
        Err(Error {
            kind: Kind::TypeChecker(ErrorKind::NotDefEq(term_lhs, term_rhs)),
            trace: vec![],
        })
    );
}

#[test]
fn typed_reduction_app_1() {
    let mut arena = Arena::new();
    let type_0 = Term::type_usize(0, &mut arena);
    let term = arena
        .build(&app(abs("x", type_usize(0), var("x")), prop()))
        .unwrap();
    let reduced = arena.build(&prop()).unwrap();
    assert!(term.is_def_eq(reduced, &mut arena).is_ok());
    let term_type = term.infer(&mut arena).unwrap();
    assert_eq!(term_type, type_0);
    assert!(term.check(term_type, &mut arena).is_ok());
}

#[test]
fn typed_reduction_universe() {
    let mut arena = Arena::new();
    let type_0 = Term::type_usize(0, &mut arena);
    let type_1 = Term::type_usize(1, &mut arena);
    let term = arena
        .build(&app(
            abs("x", prop(), type_usize(0)),
            prod("p", prop(), var("p")),
        ))
        .unwrap();
    assert!(term.is_def_eq(type_0, &mut arena).is_ok());
    let term_type = term.infer(&mut arena).unwrap();
    assert_eq!(term_type, type_1);
    assert!(term.check(term_type, &mut arena).is_ok());
}

#[test]
fn escape_from_prop() {
    let mut arena = Arena::new();
    let term = arena
        .build(&abs("x", prop(), prod("y", var("x"), type_usize(0))))
        .unwrap();
    let term_type = term.infer(&mut arena).unwrap();
    let expected_type = arena.build(&prod("x", prop(), type_usize(1))).unwrap();
    assert_eq!(term_type, expected_type);
    assert!(term.check(term_type, &mut arena).is_ok());
}

#[test]
fn illtyped_reduction() {
    let mut arena = Arena::new();
    // λ(x: P -> P). (λ(y: P). x y) x
    let term = arena
        .build(&abs(
            "x",
            prod("_", prop(), prop()),
            app(abs("y", prop(), app(var("x"), var("y"))), var("x")),
        ))
        .unwrap();
    // λ(x: P). x x
    let reduced = arena
        .build(&abs("x", prop(), app(var("x"), var("x"))))
        .unwrap();
    assert!(term.is_def_eq(reduced, &mut arena).is_ok());
}

#[test]
fn typed_prod_1() {
    let mut arena = Arena::new();
    let type_0 = Term::type_usize(0, &mut arena);
    let term = arena.build(&prod("x", prop(), prop())).unwrap();
    let term_type = term.infer(&mut arena).unwrap();
    assert_eq!(term_type, type_0);
    assert!(term.check(term_type, &mut arena).is_ok());
}

#[test]
fn typed_prod_2() {
    let mut arena = Arena::new();
    let term = arena.build(&prod("x", prop(), var("x"))).unwrap();
    let term_type = term.infer(&mut arena).unwrap();
    assert_eq!(term_type, Term::prop(&mut arena));
    assert!(term.check(term_type, &mut arena).is_ok());
}

#[test]
fn typed_prod_3() {
    let mut arena = Arena::new();
    let term = arena
        .build(&abs("x", prop(), abs("y", var("x"), var("y"))))
        .unwrap();
    let term_type = term.infer(&mut arena).unwrap();
    let expected_type = arena
        .build(&prod("x", prop(), prod("y", var("x"), var("x"))))
        .unwrap();
    assert_eq!(term_type, expected_type);
    assert!(term.check(term_type, &mut arena).is_ok());
}

#[test]
fn typed_polymorphism() {
    let mut arena = Arena::new();
    let identity = arena
        .build(&abs("a", type_usize(0), abs("x", var("a"), var("x"))))
        .unwrap();
    let identity_type = identity.infer(&mut arena).unwrap();
    let expected_type = arena
        .build(&prod("a", type_usize(0), prod("x", var("a"), var("a"))))
        .unwrap();
    assert_eq!(identity_type, expected_type);
    assert!(identity.check(identity_type, &mut arena).is_ok());
}

#[test]
fn typed_polymorphism_2() {
    let mut arena = Arena::new();
    let term = arena
        .build(&abs(
            "a",
            prop(),
            abs(
                "b",
                prop(),
                abs(
                    "f",
                    prod("_", prop(), prod("_", prop(), prop())),
                    app(app(var("f"), var("a")), var("b")),
                ),
            ),
        ))
        .unwrap();
    let term_type = term.infer(&mut arena).unwrap();
    let expected = arena
        .build(&prod(
            "a",
            prop(),
            prod(
                "b",
                prop(),
                prod("f", prod("_", prop(), prod("_", prop(), prop())), prop()),
            ),
        ))
        .unwrap();
    assert_eq!(term_type, expected);
    assert!(term.check(term_type, &mut arena).is_ok());
}

#[test]
fn type_hierarchy_prop() {
    let mut arena = Arena::new();
    let term = Term::prop(&mut arena);
    let term_type = term.infer(&mut arena).unwrap();
    assert_eq!(term_type, Term::type_usize(0, &mut arena));
    assert!(term.check(term_type, &mut arena).is_ok());
}

#[test]
fn type_hierarchy_type() {
    let mut arena = Arena::new();
    let term = Term::type_usize(0, &mut arena);
    let term_type = term.infer(&mut arena).unwrap();
    assert_eq!(term_type, Term::type_usize(1, &mut arena));
    assert!(term.check(term_type, &mut arena).is_ok());
}

#[test]
fn irrelevance_conversion() {
    let mut arena = Arena::new();
    let false_ = Term::axiom_term(Axiom::False(False::False), &Vec::new(), &mut arena);
    let z = Level::from(0, &mut arena);
    let false_rec = Term::axiom_term(Axiom::False(False::FalseRec), &vec![z], &mut arena);
    let v1 = Term::var(1, false_, &mut arena);
    let tt1 = false_.abs(v1, &mut arena);
    let fr = false_rec.app(false_, &mut arena);
    let body = fr.app(v1, &mut arena);
    let tt2 = false_.abs(body, &mut arena);
    assert!(tt1.conversion(tt2, &mut arena));
}

#[test]
fn not_function_app_1() {
    let mut arena = Arena::new();
    let term = arena.build(&app(prop(), prop())).unwrap();
    let p = Term::prop(&mut arena);
    let t0 = Term::type_usize(0, &mut arena);
    assert_eq!(
        term.infer(&mut arena),
        Err(Error {
            kind: Kind::TypeChecker(ErrorKind::NotAFunction(TypedTerm(p, t0), p)),
            trace: vec![Trace::Left],
        })
    );
}

#[test]
fn not_function_abs() {
    let mut arena = Arena::new();
    let term = arena.build(&abs("x", app(prop(), prop()), prop())).unwrap();
    let p = Term::prop(&mut arena);
    let t0 = Term::type_usize(0, &mut arena);
    assert_eq!(
        term.infer(&mut arena),
        Err(Error {
            kind: Kind::TypeChecker(ErrorKind::NotAFunction(TypedTerm(p, t0), p)),
            trace: vec![Trace::Left, Trace::Left],
        })
    );
}

#[test]
fn not_function_prod_1() {
    let mut arena = Arena::new();
    let term = arena.build(&prod("x", prop(), app(prop(), prop()))).unwrap();
    let p = Term::prop(&mut arena);
    let t0 = Term::type_usize(0, &mut arena);
    assert_eq!(
        term.infer(&mut arena),
        Err(Error {
            kind: Kind::TypeChecker(ErrorKind::NotAFunction(TypedTerm(p, t0), p)),
            trace: vec![Trace::Left, Trace::Right],
        })
    );
}

#[test]
fn wrong_argument_type() {
    let mut arena = Arena::new();
    // λ(x: P -> P). (λ(y: P). x y) x
    let term = arena
        .build(&abs(
            "x",
            prod("_", prop(), prop()),
            app(abs("y", prop(), app(var("x"), var("y"))), var("x")),
        ))
        .unwrap();
    // The reported function is the inner abstraction and the argument the
    // bound variable; rebuild both in the same de Bruijn shape, which by
    // interning yields the same handles.
    let p = Term::prop(&mut arena);
    let pp = p.prod(p, &mut arena);
    let v2 = Term::var(2, pp, &mut arena);
    let v1 = Term::var(1, p, &mut arena);
    let inner = v2.app(v1, &mut arena);
    let f_expected = p.abs(inner, &mut arena);
    let u_expected = Term::var(1, pp, &mut arena);
    assert_eq!(
        term.infer(&mut arena),
        Err(Error {
            kind: Kind::TypeChecker(ErrorKind::WrongArgumentType(
                f_expected,
                p,
                TypedTerm(u_expected, pp)
            )),
            trace: vec![Trace::Right],
        })
    );
}

#[test]
fn check_fail_1() {
    let mut arena = Arena::new();
    let term = arena.build(&app(prop(), prop())).unwrap();
    let expected_type = Term::prop(&mut arena);
    let p = Term::prop(&mut arena);
    let t0 = Term::type_usize(0, &mut arena);
    assert_eq!(
        term.check(expected_type, &mut arena),
        Err(Error {
            kind: Kind::TypeChecker(ErrorKind::NotAFunction(TypedTerm(p, t0), p)),
            trace: vec![Trace::Left],
        })
    );
}

#[test]
fn check_fail_2() {
    let mut arena = Arena::new();
    let p = Term::prop(&mut arena);
    let t0 = Term::type_usize(0, &mut arena);
    assert_eq!(
        p.check(p, &mut arena),
        Err(Error {
            kind: Kind::TypeChecker(ErrorKind::TypeMismatch(t0, p)),
            trace: vec![],
        })
    );
}

#[test]
fn to_num() {
    let mut arena = Arena::new();
    let l1 = arena.build_level(&L::Max(
        Box::new(L::Succ(Box::new(L::Zero))),
        Box::new(L::Zero),
    ));
    assert_eq!(l1.to_numeral(&arena), Some(1));
    let l2 = arena.build_level(&L::Max(
        Box::new(L::Succ(Box::new(L::Zero))),
        Box::new(L::Succ(Box::new(L::Var(0)))),
    ));
    assert_eq!(l2.to_numeral(&arena), None);
    let l3 = arena.build_level(&L::IMax(Box::new(L::Var(0)), Box::new(L::Zero)));
    assert_eq!(l3.to_numeral(&arena), Some(0));
    let l4 = arena.build_level(&L::IMax(
        Box::new(L::Zero),
        Box::new(L::Succ(Box::new(L::Zero))),
    ));
    assert_eq!(l4.to_numeral(&arena), Some(1));
}

#[test]
fn whnf_idempotent_on_stuck_recursor() {
    // Eq_rec A a m r b p with a variable proof is stuck: whnf returns the
    // term unchanged, and reducing again changes nothing.
    let mut arena = Arena::new_with_axioms();
    let term = arena
        .build(&abs(
            "A",
            type_usize(0),
            abs(
                "a",
                var("A"),
                abs(
                    "b",
                    var("A"),
                    abs(
                        "m",
                        prop(),
                        abs(
                            "r",
                            prop(),
                            abs(
                                "p",
                                prop(),
                                app(
                                    app(
                                        app(
                                            app(
                                                app(
                                                    app(
                                                        decl(
                                                            "Eq_rec",
                                                            vec![
                                                                kernel::builder::LevelBuilder::Zero,
                                                                kernel::builder::LevelBuilder::Zero,
                                                            ],
                                                        ),
                                                        var("A"),
                                                    ),
                                                    var("a"),
                                                ),
                                                var("m"),
                                            ),
                                            var("r"),
                                        ),
                                        var("b"),
                                    ),
                                    var("p"),
                                ),
                            ),
                        ),
                    ),
                ),
            ),
        ))
        .unwrap();
    let w = term.whnf(&mut arena);
    let w2 = w.whnf(&mut arena);
    assert_eq!(w, w2);
}

#[test]
fn eq_rec_reduces_on_refl() {
    // Eq_rec Prop m r Prop (Refl Type0 Prop) reduces to r when the index
    // converts; build the closed instance and check the iota rule fires.
    let mut arena = Arena::new_with_axioms();
    let one = L::Succ(Box::new(L::Zero));
    let eq_rec = decl("Eq_rec", vec![one, L::Zero]);
    let refl = decl("Refl", vec![L::Succ(Box::new(L::Zero))]);
    // motive: (b : Type 0) -> Eq Type0 ... -> Prop; use a constant motive.
    let motive = abs(
        "b",
        type_usize(0),
        abs("p", prop(), prop()),
    );
    drop(motive);
    let term = arena
        .build(&app(
            app(
                app(
                    app(
                        app(app(eq_rec, type_usize(0)), prop()),
                        abs("b", type_usize(0), abs("h", prop(), prop())),
                    ),
                    id(),
                ),
                prop(),
            ),
            app(app(refl, type_usize(0)), prop()),
        ))
        .unwrap();
    let w = term.whnf(&mut arena);
    let r = arena.build(&id()).unwrap();
    assert_eq!(w, r);
}

#[test]
fn impredicativity() {
    let mut arena = Arena::new();
    let t1 = arena.build(&prod("x", prop(), type_usize(0))).unwrap();
    assert_eq!(
        t1.infer(&mut arena).unwrap(),
        Term::type_usize(1, &mut arena)
    );
    let t2 = arena.build(&prod("x", prop(), prop())).unwrap();
    assert_eq!(
        t2.infer(&mut arena).unwrap(),
        Term::type_usize(0, &mut arena)
    );
    let t3 = arena.build(&prod("x", prop(), var("x"))).unwrap();
    assert_eq!(t3.infer(&mut arena).unwrap(), Term::prop(&mut arena));
}

#[test]
fn applying_polymorphic_identity() {
    let mut arena = Arena::new();
    let term = arena
        .build(&app(
            app(
                abs("a", type_usize(0), abs("x", var("a"), var("x"))),
                prop(),
            ),
            prop(),
        ))
        .unwrap();
    // The second application is rejected: `Prop` lives in `Type 0`, not in
    // `Prop`; reduction is untyped and still reaches the normal form.
    assert!(term.infer(&mut arena).is_err());
    let w = term.whnf(&mut arena);
    assert_eq!(w, Term::prop(&mut arena));
}

#[test]
fn interning_shares_handles() {
    let mut arena = Arena::new();
    let a = arena.build(&abs("x", prop(), var("x"))).unwrap();
    let b = arena.build(&abs("y", prop(), var("y"))).unwrap();
    assert_eq!(a, b);
    let p1 = Term::prop(&mut arena);
    let p2 = Term::prop(&mut arena);
    assert_eq!(p1, p2);
}

#[test]
fn level_normalization_fixed_point() {
    let mut arena = Arena::new();
    let l = arena.build_level(&L::IMax(
        Box::new(L::Zero),
        Box::new(L::IMax(
            Box::new(L::Zero),
            Box::new(L::IMax(Box::new(L::Succ(Box::new(L::Zero))), Box::new(L::Var(0)))),
        )),
    ));
    let l2 = arena.build_level(&L::IMax(
        Box::new(L::Zero),
        Box::new(L::IMax(
            Box::new(L::Zero),
            Box::new(L::IMax(Box::new(L::Succ(Box::new(L::Zero))), Box::new(L::Var(0)))),
        )),
    ));
    assert_eq!(l, l2);
}

#[test]
fn universe_polymorphic_declarations() {
    let mut arena = Arena::new_with_axioms();
    let d = arena.get_binding_decl("Eq").unwrap();
    assert!(d.infer(&mut arena).is_ok());
    let r = arena.get_binding_decl("Refl").unwrap();
    assert!(r.infer(&mut arena).is_ok());
}

#[test]
fn unknown_identifier() {
    let mut arena = Arena::new();
    let e = arena.build(&var("nope")).unwrap_err();
    match e.kind {
        Kind::Builder(kernel::builder::ErrorKind::ConstNotFound(n)) => {
            assert_eq!(n, "nope".to_owned())
        }
        k => panic!("unexpected kind {:?}", k),
    }
}

#[test]
fn failed_app_head_conversion() {
    let mut arena = Arena::new();
    let term_lhs = arena
        .build(&abs(
            "x",
            type_usize(0),
            abs("y", type_usize(0), app(var("y"), prop())),
        ))
        .unwrap();
    let term_rhs = arena
        .build(&abs(
            "x",
            type_usize(0),
            abs("y", type_usize(0), app(var("x"), prop())),
        ))
        .unwrap();
    assert_eq!(
        term_lhs.is_def_eq(term_rhs, &mut arena),
        Err(Error {
            kind: Kind::TypeChecker(ErrorKind::NotDefEq(term_lhs, term_rhs)),
            trace: vec![],
        })
    );
}

#[test]
fn typed_reduction_app_2() {
    let mut arena = Arena::new();
    // (λa.λb.λc.a (λd.λe.e (d b)) (λ_.c) (λd.d)) (λf.λg.f g)
    let term = arena
        .build(&app(
            abs(
                "a",
                prod(
                    "_",
                    prod(
                        "_",
                        prod("_", prop(), prop()),
                        prod("_", prod("_", prop(), prop()), prop()),
                    ),
                    prod(
                        "_",
                        prod("_", prop(), prop()),
                        prod("_", prod("_", prop(), prop()), prop()),
                    ),
                ),
                abs(
                    "b",
                    prop(),
                    abs(
                        "c",
                        prop(),
                        app(
                            app(
                                app(
                                    var("a"),
                                    abs(
                                        "d",
                                        prod("_", prop(), prop()),
                                        abs(
                                            "e",
                                            prod("_", prop(), prop()),
                                            app(var("e"), app(var("d"), var("b"))),
                                        ),
                                    ),
                                ),
                                abs("_", prop(), var("c")),
                            ),
                            abs("d", prop(), var("d")),
                        ),
                    ),
                ),
            ),
            abs(
                "f",
                prod(
                    "_",
                    prod("_", prop(), prop()),
                    prod("_", prod("_", prop(), prop()), prop()),
                ),
                abs("g", prod("_", prop(), prop()), app(var("f"), var("g"))),
            ),
        ))
        .unwrap();

    // λ_: P. λx: P. x
    let reduced = arena
        .build(&abs("_", prop(), abs("x", prop(), var("x"))))
        .unwrap();
    assert!(term.is_def_eq(reduced, &mut arena).is_ok());

    let term_type = term.infer(&mut arena).unwrap();
    let expected_type = arena
        .build(&prod("_", prop(), prod("_", prop(), prop())))
        .unwrap();
    assert_eq!(term_type, expected_type);
    assert!(term.check(term_type, &mut arena).is_ok());
}

#[test]
fn not_function_prod_2() {
    let mut arena = Arena::new();
    let term = arena.build(&prod("x", app(prop(), prop()), prop())).unwrap();
    let p = Term::prop(&mut arena);
    let t0 = Term::type_usize(0, &mut arena);
    assert_eq!(
        term.infer(&mut arena),
        Err(Error {
            kind: Kind::TypeChecker(ErrorKind::NotAFunction(TypedTerm(p, t0), p)),
            trace: vec![Trace::Left, Trace::Left],
        })
    );
}

#[test]
fn not_function_app_2() {
    let mut arena = Arena::new();
    let term = arena.build(&app(app(prop(), prop()), prop())).unwrap();
    let p = Term::prop(&mut arena);
    let t0 = Term::type_usize(0, &mut arena);
    assert_eq!(
        term.infer(&mut arena),
        Err(Error {
            kind: Kind::TypeChecker(ErrorKind::NotAFunction(TypedTerm(p, t0), p)),
            trace: vec![Trace::Left, Trace::Left],
        })
    );
}

#[test]
fn not_function_app_3() {
    let mut arena = Arena::new();
    let term = arena
        .build(&app(abs("x", prop(), prop()), app(prop(), prop())))
        .unwrap();
    let p = Term::prop(&mut arena);
    let t0 = Term::type_usize(0, &mut arena);
    assert_eq!(
        term.infer(&mut arena),
        Err(Error {
            kind: Kind::TypeChecker(ErrorKind::NotAFunction(TypedTerm(p, t0), p)),
            trace: vec![Trace::Left, Trace::Right],
        })
    );
}

#[test]
fn not_universe_abs() {
    let mut arena = Arena::new();
    let term = arena
        .build(&abs(
            "p",
            prop(),
            abs("x", var("p"), abs("q", var("x"), var("q"))),
        ))
        .unwrap();
    let p = Term::prop(&mut arena);
    let v2 = Term::var(2, p, &mut arena);
    assert_eq!(
        term.infer(&mut arena),
        Err(Error {
            kind: Kind::TypeChecker(ErrorKind::NotUniverse(v2)),
            trace: vec![Trace::Left, Trace::Right, Trace::Right],
        })
    );
}

#[test]
fn not_universe_prod_1() {
    let mut arena = Arena::new();
    let term = arena.build(&prod("x", id(), prop())).unwrap();
    let pp = arena.build(&prod("_", prop(), prop())).unwrap();
    assert_eq!(
        term.infer(&mut arena),
        Err(Error {
            kind: Kind::TypeChecker(ErrorKind::NotUniverse(pp)),
            trace: vec![Trace::Left],
        })
    );
}

#[test]
fn not_universe_prod_2() {
    let mut arena = Arena::new();
    let term = arena.build(&prod("x", prop(), abs("y", prop(), prop()))).unwrap();
    let p = Term::prop(&mut arena);
    let t0 = Term::type_usize(0, &mut arena);
    let pt = p.prod(t0, &mut arena);
    assert_eq!(
        term.infer(&mut arena),
        Err(Error {
            kind: Kind::TypeChecker(ErrorKind::NotUniverse(pt)),
            trace: vec![Trace::Right],
        })
    );
}
