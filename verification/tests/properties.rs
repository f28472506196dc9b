use rustylox::vm::{InterpretResult, VM};

// A reference evaluator over the same value domain: 64-bit integers with
// wrapping arithmetic, division truncating toward zero, and division by
// zero as an error.

#[derive(Clone, Copy, Debug, PartialEq)]
enum RefOutcome {
    Num(i64),
    DivByZero,
}

#[derive(Clone, Debug)]
enum Expr {
    Lit(i64),
    Add(Box<Expr>, Box<Expr>),
    Sub(Box<Expr>, Box<Expr>),
    Mul(Box<Expr>, Box<Expr>),
    Div(Box<Expr>, Box<Expr>),
}

fn eval(e: &Expr) -> RefOutcome {
    match e {
        Expr::Lit(n) => RefOutcome::Num(*n),
        Expr::Add(a, b) => combine(eval(a), eval(b), |x, y| Some(x.wrapping_add(y))),
        Expr::Sub(a, b) => combine(eval(a), eval(b), |x, y| Some(x.wrapping_sub(y))),
        Expr::Mul(a, b) => combine(eval(a), eval(b), |x, y| Some(x.wrapping_mul(y))),
        Expr::Div(a, b) => combine(
            eval(a),
            eval(b),
            |x, y| if y == 0 {
                None
            } else {
                Some(x.wrapping_div(y))
            },
        ),
    }
}

fn combine(a: RefOutcome, b: RefOutcome, f: impl Fn(i64, i64) -> Option<i64>) -> RefOutcome {
    match (a, b) {
        (RefOutcome::Num(x), RefOutcome::Num(y)) => match f(x, y) {
            Some(v) => RefOutcome::Num(v),
            None => RefOutcome::DivByZero,
        },
        _ => RefOutcome::DivByZero,
    }
}

fn render(e: &Expr, out: &mut String) {
    match e {
        Expr::Lit(n) => out.push_str(&n.to_string()),
        Expr::Add(a, b) => render_binary(a, b, '+', out),
        Expr::Sub(a, b) => render_binary(a, b, '-', out),
        Expr::Mul(a, b) => render_binary(a, b, '*', out),
        Expr::Div(a, b) => render_binary(a, b, '/', out),
    }
}

fn render_binary(a: &Expr, b: &Expr, op: char, out: &mut String) {
    out.push('(');
    render(a, out);
    out.push(' ');
    out.push(op);
    out.push(' ');
    render(b, out);
    out.push(')');
}

struct Lcg(u64);

impl Lcg {
    fn next(&mut self) -> u64 {
        self.0 = self.0.wrapping_mul(6364136223846793005).wrapping_add(1442695040888963407);
        self.0 >> 16
    }
}

fn gen_expr(rng: &mut Lcg, depth: u32) -> Expr {
    if depth == 0 || rng.next() % 3 == 0 {
        Expr::Lit((rng.next() % 100) as i64)
    } else {
        let a = Box::new(gen_expr(rng, depth - 1));
        let b = Box::new(gen_expr(rng, depth - 1));
        match rng.next() % 4 {
            0 => Expr::Add(a, b),
            1 => Expr::Sub(a, b),
            2 => Expr::Mul(a, b),
            _ => Expr::Div(a, b),
        }
    }
}

#[test]
fn random_arithmetic_matches_the_reference_evaluator() {
    let mut rng = Lcg(0x1234_5678_9abc_def0);
    for round in 0..200 {
        let expr = gen_expr(&mut rng, 4);
        let mut src = String::new();
        render(&expr, &mut src);
        let mut vm = VM::new();
        let r = vm.interpret(src.as_bytes().to_vec());
        match eval(&expr) {
            RefOutcome::Num(expected) => {
                assert_eq!(r, InterpretResult::InterpretOk, "round {} src {}", round, src);
                let got = String::from_utf8(vm.printed.expect("no output")).unwrap();
                assert_eq!(got, expected.to_string(), "round {} src {}", round, src);
            }
            RefOutcome::DivByZero => {
                assert_eq!(
                    r,
                    InterpretResult::InterpretRuntimeError,
                    "round {} src {}",
                    round,
                    src,
                );
                let diag = vm.runtime_diag.expect("no diagnostic");
                assert_eq!(diag.kind.message(), "Division by zero.");
            }
        }
    }
}

#[test]
fn random_comparison_chains_match_plain_evaluation() {
    let mut rng = Lcg(0xdead_beef_cafe_f00d);
    for _ in 0..100 {
        let x = (rng.next() % 200) as i64 - 100;
        let y = (rng.next() % 200) as i64 - 100;
        let cases: Vec<(String, bool)> = vec![
            (format!("{} < {}", x, y), x < y),
            (format!("{} <= {}", x, y), x <= y),
            (format!("{} > {}", x, y), x > y),
            (format!("{} >= {}", x, y), x >= y),
            (format!("{} == {}", x, y), x == y),
            (format!("{} != {}", x, y), x != y),
        ];
        for (src, expected) in cases {
            let mut vm = VM::new();
            let src_shown = src.clone();
            let r = vm.interpret(src.into_bytes());
            assert_eq!(r, InterpretResult::InterpretOk, "src {}", src_shown);
            let got = String::from_utf8(vm.printed.expect("no output")).unwrap();
            assert_eq!(got, expected.to_string(), "src {}", src_shown);
        }
    }
}

#[test]
fn negative_literals_render_like_the_host() {
    for n in [-1i64, -42, -100, i64::MIN + 1] {
        let src = format!("0 - {}", -(n as i128));
        let mut vm = VM::new();
        let r = vm.interpret(src.clone().into_bytes());
        assert_eq!(r, InterpretResult::InterpretOk, "src {}", src);
        let got = String::from_utf8(vm.printed.expect("no output")).unwrap();
        assert_eq!(got, n.to_string(), "src {}", src);
    }
}
