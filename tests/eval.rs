use atto::ast::{Builtin, Expr, Program};
use atto::error::{Error, Fault};
use atto::eval::{exec, run, Console, Machine};
use atto::parse::code;
use atto::value::{to_text, values_eq, Number, Value};

#[derive(Clone, Copy, Debug, PartialEq)]
struct F64(f64);

impl Number for F64 {
    fn from_literal(text: &str) -> Self {
        F64(text.parse().unwrap_or(f64::NAN))
    }
    fn add(self, other: Self) -> Self {
        F64(self.0 + other.0)
    }
    fn sub(self, other: Self) -> Self {
        F64(self.0 - other.0)
    }
    fn mul(self, other: Self) -> Self {
        F64(self.0 * other.0)
    }
    fn div(self, other: Self) -> Self {
        F64(self.0 / other.0)
    }
    fn rem(self, other: Self) -> Self {
        F64(self.0 % other.0)
    }
    fn less(self, other: Self) -> bool {
        self.0 < other.0
    }
    fn less_eq(self, other: Self) -> bool {
        self.0 <= other.0
    }
    fn equals(self, other: Self) -> bool {
        self.0 == other.0
    }
    fn floor(self) -> Self {
        F64(self.0.floor())
    }
    fn ceil(self) -> Self {
        F64(self.0.ceil())
    }
    fn render(self) -> String {
        format!("{}", self.0)
    }
}

#[derive(Default)]
struct Recorder {
    input: Vec<String>,
    out: Vec<String>,
    debug: Vec<String>,
}

impl Console for Recorder {
    fn read_line(&mut self) -> String {
        if self.input.is_empty() {
            String::new()
        } else {
            self.input.remove(0)
        }
    }
    fn write_line(&mut self, line: String) {
        self.out.push(line);
    }
    fn debug_line(&mut self, line: String) {
        self.debug.push(line);
    }
}

fn run_src(src: &str) -> (Result<(), Vec<Error>>, Recorder) {
    let mut rec = Recorder::default();
    let r = exec::<F64, Recorder>(src, &mut rec);
    (r, rec)
}

fn eval_main(src: &str, input: Vec<String>) -> (Result<String, Fault>, Recorder) {
    let prog = code(src).unwrap();
    let mut m = Machine::new(Recorder { input, ..Recorder::default() });
    let r = run::<F64, Recorder>(&prog, 200, &mut m).map(|v| to_text(&v));
    (r, m.console)
}

#[test]
fn print_a_number() {
    let (r, rec) = run_src("def main @ -> __print @ 42");
    assert_eq!(r, Ok(()));
    assert_eq!(rec.out, vec!["42".to_string()]);
}

#[test]
fn curried_global_with_two_arguments() {
    let (r, rec) = run_src("def +'' x -> y -> __add x y   def main @ -> let z + 2 3 __print @ z");
    assert_eq!(r, Ok(()));
    assert_eq!(rec.out, vec!["5".to_string()]);
}

#[test]
fn destructure_a_two_element_list() {
    let (r, rec) = run_src("def main @ -> let |a b| __cat __wrap 1 __wrap 2 __print @ __add a b");
    assert_eq!(r, Ok(()));
    assert_eq!(rec.out, vec!["3".to_string()]);
}

#[test]
fn destructure_with_wrong_length_is_fatal() {
    let (r, rec) = run_src("def main @ -> let |x y z| __cat __wrap 1 __wrap 2 __print @ x");
    assert_eq!(r, Err(vec![Error::fatal(Fault::DestructureLength)]));
    assert!(rec.out.is_empty());
}

#[test]
fn destructure_a_non_list_is_fatal() {
    let (r, _) = run_src("def main @ -> let |x| 5 __print @ x");
    assert_eq!(r, Err(vec![Error::fatal(Fault::DestructureNonList)]));
}

#[test]
fn call_of_a_one_argument_global() {
    let (r, rec) = run_src("def f' x -> x   def main @ -> __print @ f 7");
    assert_eq!(r, Ok(()));
    assert_eq!(rec.out, vec!["7".to_string()]);
}

#[test]
fn missing_main() {
    let (r, _) = run_src("def f 1");
    assert_eq!(r, Err(vec![Error::fatal(Fault::NoMain)]));
}

#[test]
fn universe_must_be_threaded() {
    let (r, rec) = run_src("def main @ -> let u __print @ 1 __print @ 2");
    assert_eq!(r, Err(vec![Error::fatal(Fault::InvalidUniverse)]));
    assert_eq!(rec.out, vec!["1".to_string()]);
}

#[test]
fn universe_is_threaded_in_order() {
    let (r, rec) = run_src("def main @ -> let u __print @ 1 __print u 2");
    assert_eq!(r, Ok(()));
    assert_eq!(rec.out, vec!["1".to_string(), "2".to_string()]);
}

#[test]
fn print_returns_the_next_universe() {
    let (r, rec) = eval_main("def main @ -> __print @ null", vec![]);
    assert_eq!(r, Ok("<universe>".to_string()));
    assert_eq!(rec.out, vec!["null".to_string()]);
}

#[test]
fn input_returns_next_universe_and_the_line() {
    let (r, _) = eval_main("def main @ -> __tail __input @", vec!["hi\n".to_string()]);
    assert_eq!(r, Ok("[hi\n]".to_string()));
    let (r, rec) =
        eval_main("def main @ -> let |u line| __input @ __print u line", vec!["hi\n".to_string()]);
    assert_eq!(r, Ok("<universe>".to_string()));
    assert_eq!(rec.out, vec!["hi\n".to_string()]);
}

#[test]
fn arithmetic_on_non_numbers_is_fatal() {
    let (r, _) = run_src("def main @ -> __print @ __add 1 null");
    assert_eq!(r, Err(vec![Error::fatal(Fault::TypeMismatch)]));
}

#[test]
fn arithmetic_and_comparisons() {
    assert_eq!(eval_main("def main @ -> __sub 7 2", vec![]).0, Ok("5".to_string()));
    assert_eq!(eval_main("def main @ -> __mul 7 2", vec![]).0, Ok("14".to_string()));
    assert_eq!(eval_main("def main @ -> __div 7 2", vec![]).0, Ok("3.5".to_string()));
    assert_eq!(eval_main("def main @ -> __rem 7 2", vec![]).0, Ok("1".to_string()));
    assert_eq!(eval_main("def main @ -> __floor __div 7 2", vec![]).0, Ok("3".to_string()));
    assert_eq!(eval_main("def main @ -> __ceil __div 7 2", vec![]).0, Ok("4".to_string()));
    assert_eq!(eval_main("def main @ -> __less 1 2", vec![]).0, Ok("true".to_string()));
    assert_eq!(eval_main("def main @ -> __lesseq 2 2", vec![]).0, Ok("true".to_string()));
    assert_eq!(eval_main("def main @ -> __less 2 2", vec![]).0, Ok("false".to_string()));
}

#[test]
fn if_takes_then_only_on_true() {
    assert_eq!(eval_main("def main @ -> if true 1 2", vec![]).0, Ok("1".to_string()));
    assert_eq!(eval_main("def main @ -> if false 1 2", vec![]).0, Ok("2".to_string()));
    assert_eq!(eval_main("def main @ -> if 1 1 2", vec![]).0, Ok("2".to_string()));
    assert_eq!(eval_main("def main @ -> if null 1 2", vec![]).0, Ok("2".to_string()));
}

#[test]
fn tail_past_the_end_stays_empty() {
    assert_eq!(eval_main("def main @ -> __tail __tail __tail __wrap 1", vec![]).0, Ok("[]".to_string()));
    assert_eq!(eval_main("def main @ -> __tail 5", vec![]).0, Ok("null".to_string()));
}

#[test]
fn head_of_lists_and_non_lists() {
    assert_eq!(eval_main("def main @ -> __head __cat __wrap 4 __wrap 5", vec![]).0, Ok("4".to_string()));
    assert_eq!(eval_main("def main @ -> __head __tail __wrap 4", vec![]).0, Ok("null".to_string()));
    assert_eq!(eval_main("def main @ -> __head 9", vec![]).0, Ok("9".to_string()));
}

#[test]
fn cat_with_empty_list_is_identity() {
    let empty = "__tail __wrap 0";
    let xs = "__cat __wrap 1 __wrap 2";
    let left = format!("def main @ -> __eq __cat {} {} {}", empty, xs, xs);
    let right = format!("def main @ -> __eq __cat {} {} {}", xs, empty, xs);
    assert_eq!(eval_main(&left, vec![]).0, Ok("true".to_string()));
    assert_eq!(eval_main(&right, vec![]).0, Ok("true".to_string()));
    assert_eq!(eval_main(&format!("def main @ -> __cat {} {}", empty, xs), vec![]).0, Ok("[1, 2]".to_string()));
}

#[test]
fn cat_of_mixed_and_non_lists() {
    assert_eq!(eval_main("def main @ -> __cat __wrap 1 2", vec![]).0, Ok("[1, 2]".to_string()));
    assert_eq!(eval_main("def main @ -> __cat 1 __wrap 2", vec![]).0, Ok("[1, 2]".to_string()));
    assert_eq!(eval_main("def main @ -> __cat 1 2", vec![]).0, Ok("null".to_string()));
}

#[test]
fn equality_is_deep_and_never_fatal() {
    assert_eq!(eval_main("def main @ -> __eq \"ab\" \"ab\"", vec![]).0, Ok("true".to_string()));
    assert_eq!(eval_main("def main @ -> __eq \"ab\" \"ac\"", vec![]).0, Ok("false".to_string()));
    assert_eq!(eval_main("def main @ -> __eq 1 \"a\"", vec![]).0, Ok("false".to_string()));
    assert_eq!(eval_main("def main @ -> __eq null null", vec![]).0, Ok("true".to_string()));
    assert_eq!(eval_main("def main @ -> __eq __tail __wrap 1 __tail __wrap 2", vec![]).0, Ok("true".to_string()));
}

#[test]
fn strings_print_as_their_characters() {
    assert_eq!(eval_main("def main @ -> \"hey\"", vec![]).0, Ok("hey".to_string()));
    assert_eq!(eval_main("def main @ -> __wrap \"hey\"", vec![]).0, Ok("[hey]".to_string()));
    assert_eq!(eval_main("def main @ -> x -> x", vec![]).0, Ok("<func>".to_string()));
}

#[test]
fn applying_a_number_to_an_argument_is_fatal() {
    let (r, _) = eval_main("def main @ -> let f' 5 f 1", vec![]);
    assert_eq!(r, Err(Fault::TooManyArguments));
}

#[test]
fn scalar_reference_to_a_global() {
    let (r, _) = eval_main("def one 1   def main @ -> let f $one f", vec![]);
    assert_eq!(r, Ok("1".to_string()));
}

#[test]
fn deep_recursion_stops_at_the_depth() {
    let (r, _) = eval_main("def loop' x -> loop x   def main @ -> loop 1", vec![]);
    assert_eq!(r, Err(Fault::DepthExceeded));
}

#[test]
fn debug_returns_its_operand() {
    let (r, rec) = eval_main("def main @ -> __debug 3", vec![]);
    assert_eq!(r, Ok("3".to_string()));
    assert_eq!(rec.debug, vec!["3".to_string()]);
}

#[test]
fn values_equal_reflexive_and_symmetric() {
    let a: Value<F64> = Value::List(vec![Value::Num(F64(1.0)), Value::Char('x'), Value::Null]);
    let b: Value<F64> = Value::List(vec![Value::Num(F64(1.0)), Value::Char('x'), Value::Null]);
    let c: Value<F64> = Value::List(vec![Value::Num(F64(2.0))]);
    assert!(values_eq(&a, &a));
    assert!(values_eq(&a, &b) && values_eq(&b, &a));
    assert_eq!(values_eq(&a, &c), values_eq(&c, &a));
    assert!(!values_eq(&Value::<F64>::Universe(0), &Value::Universe(0)));
}

#[test]
fn number_literal_text_round_trips() {
    assert_eq!(eval_main("def main @ -> 1e3", vec![]).0, Ok("1000".to_string()));
    assert_eq!(eval_main("def main @ -> 1000", vec![]).0, Ok("1000".to_string()));
}

#[test]
fn builtin_with_wrong_operand_count_is_fatal() {
    let prog = Program { globals: vec![("main".to_string(), Expr::Builtin(Builtin::Add, vec![]))] };
    let mut m = Machine::new(Recorder::default());
    let r = run::<F64, Recorder>(&prog, 50, &mut m).map(|v| to_text(&v));
    assert_eq!(r, Err(Fault::OperandCount));
}

#[test]
fn call_of_an_unknown_item_is_fatal() {
    let prog = Program { globals: vec![("main".to_string(), Expr::Call("nowhere".to_string(), vec![]))] };
    let mut m = Machine::new(Recorder::default());
    let r = run::<F64, Recorder>(&prog, 50, &mut m).map(|v| to_text(&v));
    assert_eq!(r, Err(Fault::UnknownItem));
}

#[test]
fn machine_starts_at_the_first_universe() {
    let m = Machine::new(Recorder::default());
    assert_eq!(m.universe, 0);
}
