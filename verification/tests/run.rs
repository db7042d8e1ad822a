use rand::rngs::StdRng;
use rand::SeedableRng;
use rustnetic::chromosome::Chromosome;
use rustnetic::expr::{Expr, Op, ParseError, ParseErrorKind};
use rustnetic::genetic::{expressions, Genetic};
use rustnetic::rate::Rate;

fn chromosome(genes: &[i32]) -> Chromosome {
    Chromosome { genes: genes.to_vec() }
}

fn float_value(expr: &Expr) -> f32 {
    match expr {
        Expr::Number(digits) => digits.parse::<f32>().unwrap(),
        Expr::UnaryMinus(operand) => -float_value(operand),
        Expr::BinOp { lhs, op, rhs } => {
            let l = float_value(lhs);
            let r = float_value(rhs);
            match op {
                Op::Add => l + r,
                Op::Subtract => l - r,
                Op::Multiply => l * r,
                Op::Divide => l / r,
                Op::Modulo => l % r,
                Op::Pow => l.powf(r),
            }
        }
    }
}

fn scores(genetic: &Genetic, pop: &Vec<Chromosome>, equation: &str) -> Result<Vec<u64>, ParseError> {
    let exprs = expressions(pop, equation)?;
    let values: Vec<i32> = exprs.iter().map(|e| float_value(e) as i32).collect();
    Ok(genetic.evaluation(&values))
}

fn standard(equation: &str, target: i32) -> Genetic {
    Genetic::new(
        100,
        Chromosome::countbits_from(equation),
        20,
        Rate::new(25, 100).unwrap(),
        Rate::new(5, 100).unwrap(),
        target,
    )
}

struct Outcome {
    generations: u64,
    solved: bool,
    averages: Vec<(u64, u128, usize)>,
    last: Vec<Chromosome>,
}

fn run(equation: &str, target: i32, seed: u64) -> Outcome {
    let genetic = standard(equation, target);
    let mut rng = StdRng::seed_from_u64(seed);
    let mut pop = genetic.populate(&mut rng);
    let mut f_obj = scores(&genetic, &pop, equation).unwrap();
    let mut averages = Vec::new();
    let mut generation = 0;
    while genetic.continues(generation, &f_obj) {
        generation += 1;
        assert!(genetic.evolve(&f_obj, &mut pop, &mut rng));
        assert_eq!(pop.len() as u64, genetic.n_pop);
        assert!(pop.iter().all(|c| c.genes.len() as u64 == genetic.n_bits));
        f_obj = scores(&genetic, &pop, equation).unwrap();
        assert_eq!(f_obj.len(), pop.len());
        averages.push(genetic.avg_score_coordinate(generation, &f_obj));
    }
    Outcome { generations: generation, solved: Genetic::solved(&f_obj), averages, last: pop }
}

#[test]
fn bare_variables_stop_the_run_at_its_first_evaluation() {
    let equation = "a + 2*b = 30";
    let genetic = standard(equation, 30);
    assert_eq!(genetic.n_bits, 2);
    let mut rng = StdRng::seed_from_u64(41);
    let pop = genetic.populate(&mut rng);
    assert_eq!(pop.len(), 20);
    assert_eq!(
        scores(&genetic, &pop, equation),
        Err(ParseError { kind: ParseErrorKind::EmptyAtom, position: 0 })
    );
}

#[test]
fn run_ends_with_a_solution_or_after_all_generations() {
    for seed in 0..20 {
        let outcome = run("1a + 2b = 30", 30, seed);
        assert!(outcome.generations <= 100);
        assert_eq!(outcome.averages.len() as u64, outcome.generations);
        assert!(outcome.solved || outcome.generations == 100);
        if outcome.solved {
            assert!(outcome.last.iter().any(|c| c.genes[0] + 2 * c.genes[1] == 30));
        } else {
            assert!(outcome.last.iter().all(|c| c.genes[0] + 2 * c.genes[1] != 30));
        }
    }
}

#[test]
fn run_finds_a_solution_for_some_seed() {
    assert!((0..20).any(|seed| run("1a + 2b = 30", 30, seed).solved));
}

#[test]
fn run_with_the_same_seed_is_the_same() {
    let first = run("1a + 2b + 3c = 40", 40, 7);
    let second = run("1a + 2b + 3c = 40", 40, 7);
    assert_eq!(first.generations, second.generations);
    assert_eq!(first.averages, second.averages);
    assert_eq!(first.last, second.last);
}

#[test]
fn curve_counts_the_generations_from_one() {
    let outcome = run("3a + 5b = 1000", 1000, 3);
    for (k, point) in outcome.averages.iter().enumerate() {
        assert_eq!(point.0, k as u64 + 1);
    }
}

#[test]
fn run_without_generations_evolves_nothing() {
    let genetic = Genetic::new(0, 1, 5, Rate::new(1, 4).unwrap(), Rate::new(1, 20).unwrap(), 9);
    let mut rng = StdRng::seed_from_u64(42);
    let pop = genetic.populate(&mut rng);
    let f_obj = scores(&genetic, &pop, "2a = 9").unwrap();
    assert!(!genetic.continues(0, &f_obj));
}

#[test]
fn solved_first_population_ends_the_run_at_once() {
    let genetic = Genetic::new(100, 1, 3, Rate::new(1, 4).unwrap(), Rate::new(1, 20).unwrap(), 0);
    let mut rng = StdRng::seed_from_u64(43);
    let pop = genetic.populate(&mut rng);
    assert_eq!(pop, vec![chromosome(&[0]), chromosome(&[0]), chromosome(&[0])]);
    let f_obj = scores(&genetic, &pop, "5a = 0").unwrap();
    assert_eq!(f_obj, vec![0, 0, 0]);
    assert!(!genetic.continues(0, &f_obj));
}

#[test]
fn generation_keeps_the_size_and_the_gene_count() {
    let genetic = Genetic::new(100, 4, 30, Rate::new(1, 2).unwrap(), Rate::new(1, 3).unwrap(), 50);
    let mut rng = StdRng::seed_from_u64(44);
    let mut pop = genetic.populate(&mut rng);
    for round in 0..50u64 {
        let f_obj: Vec<u64> = (0..30).map(|i| (i * 7 + round) % 13).collect();
        assert!(genetic.admits(&f_obj, &pop));
        genetic.generation(&f_obj, &mut pop, &mut rng);
        assert_eq!(pop.len(), 30);
        assert!(pop.iter().all(|c| c.genes.len() == 4));
        assert!(pop.iter().all(|c| c.genes.iter().all(|g| 0 <= *g && *g <= 50)));
    }
}

#[test]
fn generation_is_refused_where_the_scores_do_not_match() {
    let genetic = Genetic::new(100, 2, 2, Rate::new(1, 2).unwrap(), Rate::new(1, 3).unwrap(), 50);
    let mut rng = StdRng::seed_from_u64(45);
    let before = vec![chromosome(&[1, 2]), chromosome(&[3, 4])];
    let mut pop = before.clone();
    assert!(!genetic.admits(&[1], &pop));
    assert!(!genetic.evolve(&[1], &mut pop, &mut rng));
    assert_eq!(pop, before);
}

#[test]
fn generation_is_refused_where_a_chromosome_has_another_gene_count() {
    let genetic = Genetic::new(100, 2, 2, Rate::new(1, 2).unwrap(), Rate::new(1, 3).unwrap(), 50);
    let mut rng = StdRng::seed_from_u64(46);
    let before = vec![chromosome(&[1, 2]), chromosome(&[3, 4, 5])];
    let mut pop = before.clone();
    assert!(!genetic.evolve(&[1, 2], &mut pop, &mut rng));
    assert_eq!(pop, before);
}

#[test]
fn generation_is_refused_where_no_value_can_be_drawn() {
    let before = vec![chromosome(&[1, 2]), chromosome(&[3, 4])];
    let mut rng = StdRng::seed_from_u64(47);
    let genetic = Genetic::new(100, 2, 2, Rate::new(1, 2).unwrap(), Rate::new(1, 3).unwrap(), 0);
    let mut pop = before.clone();
    assert!(!genetic.evolve(&[1, 2], &mut pop, &mut rng));
    assert_eq!(pop, before);
    let still = Genetic::new(100, 2, 2, Rate::new(1, 2).unwrap(), Rate::new(1, 5).unwrap(), 0);
    assert!(still.admits(&[1, 2], &before));
}

#[test]
fn generation_is_refused_where_no_cut_can_be_drawn() {
    let before = vec![chromosome(&[]), chromosome(&[])];
    let genetic = Genetic::new(100, 0, 2, Rate::new(1, 2).unwrap(), Rate::new(1, 3).unwrap(), 5);
    assert!(!genetic.admits(&[1, 2], &before));
    let never = Genetic::new(100, 0, 2, Rate::new(0, 2).unwrap(), Rate::new(1, 3).unwrap(), 5);
    assert!(never.admits(&[1, 2], &before));
    let mut pop = before.clone();
    let mut rng = StdRng::seed_from_u64(48);
    assert!(never.evolve(&[1, 2], &mut pop, &mut rng));
    assert_eq!(pop, before);
}
