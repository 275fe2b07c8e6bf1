use calculator::ast::BinaryOperator;
use calculator::bytecode::{Bytecode, Literal};
use calculator::compiler::Compiler;
use calculator::lexer::Lexer;
use calculator::object::Object;
use calculator::opcode::Opcode;
use calculator::parser::Parser;
use calculator::pipeline::compile_source;
use calculator::vm::{RuntimeError, Step, VM};

/// Drives the machine, doing its binary64 work.
fn drive(vm: &mut VM, bytecode: &Bytecode) -> Result<Object, RuntimeError> {
    loop {
        match vm.step(bytecode) {
            Step::Continue => {}
            Step::Decode(text) => vm.push(Object::Number(text.parse::<f64>().unwrap().to_bits())),
            Step::Arithmetic { op, left, right } => {
                let (l, r) = (f64::from_bits(left), f64::from_bits(right));
                let v = match op {
                    BinaryOperator::Add => l + r,
                    BinaryOperator::Subtract => l - r,
                    BinaryOperator::Multiply => l * r,
                    BinaryOperator::Divide => l / r,
                    BinaryOperator::Modulo => l % r,
                    _ => unreachable!(),
                };
                vm.push(Object::Number(v.to_bits()));
            }
            Step::Returned(v) => return Ok(v),
            Step::Failed(e) => return Err(e),
        }
    }
}

fn evaluate(input: &str) -> Result<Object, RuntimeError> {
    let bytecode = compile_source(input).unwrap();
    let mut vm = VM::default();
    drive(&mut vm, &bytecode)
}

fn number(x: f64) -> Object {
    Object::Number(x.to_bits())
}

#[test]
fn execute() {
    let testcases = vec![
        ("953.55878 - 363.28548 / 337.20 + 964.2119", 1916.693320925267),
        (
            "981.187 + 920.748 + 725.14 / 480 + 23.374 + 907.4136 / 139 - 738.1 * 601.3312",
            -441909.210856271,
        ),
        ("318.302 - 262 + 779.6 + 596 + 158 / 951.78858 / 310.6", 1431.9025344599245),
        (
            "225.19 + 313.495 - 489.5 - 707 - 249.9 % 726 - 920.3 / 300.949 - 906.47581 / 984.2",
            -911.6940212680385,
        ),
        (
            "337.56128 * 117.1258 - 319.95 * 463.42 * 340 - 137.6581 / 740.1 / 335.21 / 954.13 - 251.6826",
            -50372932.40763155,
        ),
        ("952.66913 / 205 * 405.9887 / 379.79", 4.967737647298423),
        ("880.9 * 783.89608 - 880 % 484.0852 - 40.4498", 690097.692272),
        ("154 + 174.7825 % 984.322 + 328.91390 % 575", 657.6964),
        (
            "602.552 % 245.1 * 979.83 + 90.39 % 666.62054 / 386.0230 % 37.3 + 672.7 / 94.525",
            110093.21095284277,
        ),
        (
            "360.82 * 234.9080 / 841.8605 / 854.4 - 969.23 - 473 - 726.820 + 764.9 * 832.73722",
            634791.7674164542,
        ),
        (
            "609.436 / 299.82 - 706.56 / 601 - 791.69 + 684.384 * 120.21 + 506.0 * 143 - 527 % 803.143",
            153309.9676723381,
        ),
        (
            "157 % 494.2 / 244 - 833.7377 % 99.2804 + 554.944 * 131 % 331.2 % 380.481 * 909.70874 * 129.1784",
            19373907.86446046,
        ),
        (
            "582.33 * 730.8 - 449.9284 - 295.534 - 242 - 662.11 % 306 * 626 / 296",
            424473.3257216217,
        ),
        ("390.83556 - 371.1 - 30.6 / 584.7 * 869.77425", -25.783667039507478),
        ("232.9056 % 732.37134 / 32 * 557.6", 4058.38008),
        (
            "432.363 - 352.9 - 594 - 29.2 - 266.276 * 782.33291 + 862.83 % 566.47 - 933.19600 % 214.98",
            -208637.13094316,
        ),
        ("27.048 + 422.81241", 449.86041),
        (
            "276.2904 - 851.16 % 699.2470 % 784.760 / 227.01 + 565.0 - 36.02 % 727.11292 + 544.6576",
            1349.258809215453,
        ),
        (
            "548 + 176.413 * 963.6 + 375.91737 + 707.5 + 943.52706 * 995 * 343.74 % 725.033 - 344.52928 * 610.13",
            -37896.0220584262,
        ),
        (
            "29.6 * 195.03 + 900.224 - 842.7289 % 843.41432 * 596.1034 - 44.160",
            -495724.6105682599,
        ),
    ];

    for (input, expected) in testcases {
        let mut lexer = Lexer::new(input);
        let mut parser = Parser::new(lexer.lex().unwrap());
        let mut compiler = Compiler::new();
        let bytecode = compiler.compile(&parser.parse());
        let mut vm = VM::default();
        let result = drive(&mut vm, &bytecode).unwrap();

        assert_eq!(result, number(expected));
    }
}

#[test]
fn compile() {
    let mut lexer = Lexer::new("true && 10 > 1");
    let mut parser = Parser::new(lexer.lex().unwrap());
    let mut compiler = Compiler::new();
    let bytecode = compiler.compile(&parser.parse());
    println!("{:#?}", bytecode);
    assert_eq!(bytecode.codes, vec![Opcode::Constant(0), Opcode::Constant(1), Opcode::Return]);
    assert_eq!(
        bytecode.constants,
        vec![Literal::Number("10".to_string()), Literal::Number("1".to_string())]
    );
}

#[test]
fn mixed_operators_follow_precedence() {
    assert_eq!(evaluate("10 + 20 - 30 * 40 / 50 % 60"), Ok(number(6.0)));
    assert_eq!(evaluate("(1 + 2) * 3"), Ok(number(9.0)));
    assert_eq!(evaluate("2 * (3 + 4) - 5 % 3"), Ok(number(12.0)));
}

#[test]
fn constants_are_not_shared() {
    let bytecode = compile_source("1 + 1").unwrap();
    assert_eq!(
        bytecode.codes,
        vec![Opcode::Constant(0), Opcode::Constant(1), Opcode::Add, Opcode::Return]
    );
    assert_eq!(bytecode.constants.len(), 2);
}

#[test]
fn division_by_zero_follows_binary64() {
    let inf = evaluate("1 / 0").unwrap();
    assert_eq!(inf, number(f64::INFINITY));
    match evaluate("0 / 0").unwrap() {
        Object::Number(bits) => {
            let x = f64::from_bits(bits);
            assert!(x.is_nan());
            assert!(x != x);
        }
        other => panic!("expected a number, got {:?}", other),
    }
    match evaluate("5 % 0").unwrap() {
        Object::Number(bits) => assert!(f64::from_bits(bits).is_nan()),
        other => panic!("expected a number, got {:?}", other),
    }
}

#[test]
fn one_return_whatever_the_statement_count() {
    let bytecode = compile_source("1 2 3").unwrap();
    let returns = bytecode.codes.iter().filter(|c| **c == Opcode::Return).count();
    assert_eq!(returns, 1);
    assert_eq!(*bytecode.codes.last().unwrap(), Opcode::Return);
    let mut vm = VM::default();
    assert_eq!(drive(&mut vm, &bytecode), Ok(number(3.0)));
}

#[test]
fn unbalanced_return_is_a_stack_underflow() {
    let bytecode = Bytecode { codes: vec![Opcode::Return], constants: vec![] };
    let mut vm = VM::default();
    assert_eq!(drive(&mut vm, &bytecode), Err(RuntimeError::StackUnderflow));

    let empty = compile_source("").unwrap();
    assert_eq!(empty.codes, vec![Opcode::Return]);
    assert_eq!(evaluate("  "), Err(RuntimeError::StackUnderflow));

    let bytecode = Bytecode {
        codes: vec![Opcode::Constant(0), Opcode::Add, Opcode::Return],
        constants: vec![Literal::Number("1".to_string())],
    };
    let mut vm = VM::default();
    assert_eq!(drive(&mut vm, &bytecode), Err(RuntimeError::StackUnderflow));
}

#[test]
fn arithmetic_on_a_boolean_is_a_type_mismatch() {
    let bytecode = Bytecode {
        codes: vec![Opcode::Constant(0), Opcode::Constant(1), Opcode::Add, Opcode::Return],
        constants: vec![Literal::Boolean(true), Literal::Number("1".to_string())],
    };
    let mut vm = VM::default();
    assert_eq!(
        drive(&mut vm, &bytecode),
        Err(RuntimeError::TypeMismatch {
            op: Opcode::Add,
            left: Object::Boolean(true),
            right: number(1.0),
        })
    );
}

#[test]
fn other_runtime_errors() {
    let unsupported = Bytecode {
        codes: vec![Opcode::Constant(0), Opcode::Call(0), Opcode::Return],
        constants: vec![Literal::Boolean(false)],
    };
    let mut vm = VM::default();
    assert_eq!(drive(&mut vm, &unsupported), Err(RuntimeError::Unsupported(Opcode::Call(0))));

    let ordering_booleans = Bytecode {
        codes: vec![Opcode::Constant(0), Opcode::Constant(0), Opcode::Less, Opcode::Return],
        constants: vec![Literal::Boolean(false)],
    };
    let mut vm = VM::default();
    assert_eq!(
        drive(&mut vm, &ordering_booleans),
        Err(RuntimeError::TypeMismatch {
            op: Opcode::Less,
            left: Object::Boolean(false),
            right: Object::Boolean(false),
        })
    );

    let bad = Bytecode { codes: vec![Opcode::Constant(3), Opcode::Return], constants: vec![] };
    let mut vm = VM::default();
    assert_eq!(drive(&mut vm, &bad), Err(RuntimeError::BadConstant(3)));

    let unfinished = Bytecode {
        codes: vec![Opcode::Constant(0)],
        constants: vec![Literal::Boolean(true)],
    };
    let mut vm = VM::default();
    assert_eq!(drive(&mut vm, &unfinished), Err(RuntimeError::MissingReturn));
}

#[test]
fn steps_hand_floating_point_work_to_the_host() {
    let bytecode = compile_source("2.5 * 4").unwrap();
    let mut vm = VM::default();
    assert_eq!(vm.step(&bytecode), Step::Decode("2.5".to_string()));
    vm.push(number(2.5));
    assert_eq!(vm.step(&bytecode), Step::Decode("4".to_string()));
    vm.push(number(4.0));
    assert_eq!(
        vm.step(&bytecode),
        Step::Arithmetic { op: BinaryOperator::Multiply, left: 2.5f64.to_bits(), right: 4.0f64.to_bits() }
    );
    vm.push(number(10.0));
    assert_eq!(vm.step(&bytecode), Step::Returned(number(10.0)));
}

#[test]
fn truthiness_of_values() {
    assert!(Object::is_truthy(&Object::Boolean(true)));
    assert!(Object::is_falsey(&Object::Boolean(false)));
    assert!(Object::is_falsey(&number(0.0)));
    assert!(Object::is_falsey(&number(-0.0)));
    assert!(Object::is_truthy(&number(0.5)));
    assert!(Object::is_truthy(&number(-3.0)));
    assert!(Object::is_truthy(&number(f64::NAN)));
}

#[test]
fn lexical_errors_reach_the_caller() {
    let e = compile_source("3 = 4").unwrap_err();
    assert_eq!(e.position, 2);
    assert_eq!(e.character, '=');
}

/// Runs `left op right` (then `Not` where asked) on values pushed directly.
fn compare(left: Object, right: Object, ops: Vec<Opcode>) -> Object {
    let mut codes = vec![];
    codes.extend(ops);
    codes.push(Opcode::Return);
    let bytecode = Bytecode { codes, constants: vec![] };
    let mut vm = VM::default();
    vm.push(left);
    vm.push(right);
    drive(&mut vm, &bytecode).unwrap()
}

#[test]
fn comparisons_follow_binary64() {
    let values = [0.0, -0.0, 1.0, -1.0, 2.5, -2.5, f64::INFINITY, f64::NEG_INFINITY, f64::NAN, 1e-310, -1e-310];
    for &a in values.iter() {
        for &b in values.iter() {
            let (l, r) = (number(a), number(b));
            assert_eq!(compare(l, r, vec![Opcode::Equal]), Object::Boolean(a == b), "{} == {}", a, b);
            assert_eq!(compare(l, r, vec![Opcode::Less]), Object::Boolean(a < b), "{} < {}", a, b);
            assert_eq!(compare(l, r, vec![Opcode::Greater]), Object::Boolean(a > b), "{} > {}", a, b);
            assert_eq!(compare(l, r, vec![Opcode::Equal, Opcode::Not]), Object::Boolean(a != b), "{} != {}", a, b);
        }
    }
}

#[test]
fn logic_works_on_truthiness() {
    let t = Object::Boolean(true);
    let f = Object::Boolean(false);
    assert_eq!(compare(t, number(0.0), vec![Opcode::And]), f);
    assert_eq!(compare(t, number(2.0), vec![Opcode::And]), t);
    assert_eq!(compare(f, number(-0.0), vec![Opcode::Or]), f);
    assert_eq!(compare(f, number(f64::NAN), vec![Opcode::Or]), t);
    assert_eq!(compare(t, f, vec![Opcode::Equal]), f);
    assert_eq!(compare(t, t, vec![Opcode::Equal]), t);
    assert_eq!(compare(number(1.0), t, vec![Opcode::Equal]), f);
    assert_eq!(compare(number(1.0), number(1.0), vec![Opcode::Equal, Opcode::Not]), f);
    assert_eq!(compare(number(1.0), number(2.0), vec![Opcode::Greater, Opcode::Not]), t);
}

#[test]
fn reset_readies_the_machine_for_a_new_run() {
    let failing = Bytecode {
        codes: vec![Opcode::Constant(0), Opcode::Constant(1), Opcode::Add, Opcode::Return],
        constants: vec![Literal::Number("1".to_string()), Literal::Boolean(true)],
    };
    let mut vm = VM::default();
    vm.push(number(7.0));
    assert!(drive(&mut vm, &failing).is_err());
    vm.reset();
    let bytecode = compile_source("2 * 3").unwrap();
    assert_eq!(drive(&mut vm, &bytecode), Ok(number(6.0)));
    vm.reset();
    let unbalanced = Bytecode { codes: vec![Opcode::Return], constants: vec![] };
    assert_eq!(drive(&mut vm, &unbalanced), Err(RuntimeError::StackUnderflow));
}
