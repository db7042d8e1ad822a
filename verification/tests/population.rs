use rand::rngs::StdRng;
use rand::SeedableRng;
use rustnetic::chromosome::{alphabetic_marks, count_marked, gene_for_each_variable, Chromosome};
use rustnetic::templater::variable_count;
use rustnetic::expr::{Expr, Op, ParseError, ParseErrorKind};
use rustnetic::genetic::{expression, expressions, Genetic};
use rustnetic::rate::Rate;

fn quarter() -> Rate {
    Rate::new(25, 100).unwrap()
}

fn twentieth() -> Rate {
    Rate::new(5, 100).unwrap()
}

fn chromosome(genes: &[i32]) -> Chromosome {
    Chromosome { genes: genes.to_vec() }
}

#[test]
fn rate_is_a_fraction_of_one() {
    assert!(Rate::new(0, 1).is_some());
    assert!(Rate::new(1, 1).is_some());
    assert!(Rate::new(u32::MAX, u32::MAX).is_some());
    assert!(Rate::new(2, 1).is_none());
    assert!(Rate::new(0, 0).is_none());
    assert!(Rate::new(1, 0).is_none());
}

#[test]
fn rate_keeps_its_parts() {
    let rate = Rate::new(25, 100).unwrap();
    assert_eq!(rate.numer(), 25);
    assert_eq!(rate.denom(), 100);
}

#[test]
fn gene_count_is_the_count_of_letters() {
    assert_eq!(Chromosome::countbits_from("a + 2*b = 30"), 2);
    assert_eq!(Chromosome::countbits_from("2a + 3b + 4c + 5d = 30"), 4);
    assert_eq!(Chromosome::countbits_from("a+a"), 2);
    assert_eq!(Chromosome::countbits_from("12 + 3 = 15"), 0);
    assert_eq!(Chromosome::countbits_from(""), 0);
}

#[test]
fn gene_count_includes_letters_after_the_equals_sign() {
    assert_eq!(Chromosome::countbits_from("2a = b"), 2);
}

#[test]
fn gene_count_includes_letters_of_other_scripts() {
    assert_eq!(Chromosome::countbits_from("2\u{e9} + 3\u{4eac}"), 2);
    assert_eq!(Chromosome::countbits_from("\u{1f49d}"), 0);
}

#[test]
fn constructed_chromosome_has_genes_within_the_limit() {
    let mut rng = StdRng::seed_from_u64(1);
    let made = Chromosome::construct(1000, 30, &mut rng);
    assert_eq!(made.genes.len(), 1000);
    assert!(made.genes.iter().all(|g| 0 <= *g && *g <= 30));
    assert!(made.genes.iter().any(|g| *g == 30));
    assert!(made.genes.iter().any(|g| *g == 0));
}

#[test]
fn constructed_chromosome_with_limit_zero_is_all_zero() {
    let mut rng = StdRng::seed_from_u64(2);
    let made = Chromosome::construct(50, 0, &mut rng);
    assert_eq!(made.genes, vec![0; 50]);
}

#[test]
fn constructed_chromosome_reaches_the_largest_limit() {
    let mut rng = StdRng::seed_from_u64(3);
    let made = Chromosome::construct(200, i32::MAX, &mut rng);
    assert!(made.genes.iter().all(|g| *g >= 0));
    assert!(made.genes.iter().any(|g| *g > 1 << 29));
}

#[test]
fn constructed_chromosome_without_genes_is_empty() {
    let mut rng = StdRng::seed_from_u64(4);
    assert_eq!(Chromosome::construct(0, 30, &mut rng).genes, Vec::<i32>::new());
}

#[test]
fn same_seed_gives_the_same_chromosome() {
    let mut first = StdRng::seed_from_u64(5);
    let mut second = StdRng::seed_from_u64(5);
    assert_eq!(
        Chromosome::construct(20, 1000, &mut first),
        Chromosome::construct(20, 1000, &mut second)
    );
}

#[test]
fn clone_keeps_the_genes() {
    let one = chromosome(&[1, 2, 3]);
    assert_eq!(one.clone(), one);
}

#[test]
fn new_keeps_the_parameters() {
    let genetic = Genetic::new(100, 2, 20, quarter(), twentieth(), 30);
    assert_eq!(genetic.n_iter, 100);
    assert_eq!(genetic.n_bits, 2);
    assert_eq!(genetic.n_pop, 20);
    assert_eq!(genetic.r_cross.numer(), 25);
    assert_eq!(genetic.r_cross.denom(), 100);
    assert_eq!(genetic.r_mut.numer(), 5);
    assert_eq!(genetic.r_mut.denom(), 100);
    assert_eq!(genetic.target, 30);
}

#[test]
fn first_population_has_the_size_and_gene_count() {
    let genetic = Genetic::new(100, 3, 20, quarter(), twentieth(), 30);
    let mut rng = StdRng::seed_from_u64(6);
    let pop = genetic.populate(&mut rng);
    assert_eq!(pop.len(), 20);
    assert!(pop.iter().all(|c| c.genes.len() == 3));
    assert!(pop.iter().all(|c| c.genes.iter().all(|g| 0 <= *g && *g <= 30)));
}

#[test]
fn first_population_of_size_zero_is_empty() {
    let genetic = Genetic::new(100, 3, 0, quarter(), twentieth(), 30);
    let mut rng = StdRng::seed_from_u64(7);
    assert!(genetic.populate(&mut rng).is_empty());
}

#[test]
fn fitness_is_the_distance_to_the_target() {
    let genetic = Genetic::new(100, 2, 20, quarter(), twentieth(), 30);
    assert_eq!(genetic.fitness(30), 0);
    assert_eq!(genetic.fitness(25), 5);
    assert_eq!(genetic.fitness(42), 12);
    assert_eq!(genetic.fitness(-30), 60);
}

#[test]
fn fitness_of_the_farthest_values_fits() {
    let high = Genetic::new(100, 2, 20, quarter(), twentieth(), i32::MAX);
    assert_eq!(high.fitness(i32::MIN), 4294967295);
    let low = Genetic::new(100, 2, 20, quarter(), twentieth(), i32::MIN);
    assert_eq!(low.fitness(i32::MAX), 4294967295);
    assert_eq!(low.fitness(i32::MIN), 0);
}

#[test]
fn evaluation_has_one_score_for_each_value() {
    let genetic = Genetic::new(100, 2, 4, quarter(), twentieth(), 30);
    assert_eq!(genetic.evaluation(&[30, 25, 42, -30]), vec![0, 5, 12, 60]);
    assert_eq!(genetic.evaluation(&[]), Vec::<u64>::new());
}

#[test]
fn solved_finds_a_zero() {
    assert!(Genetic::solved(&[3, 0, 5]));
    assert!(Genetic::solved(&[0]));
    assert!(!Genetic::solved(&[3, 1, 5]));
    assert!(!Genetic::solved(&[]));
}

#[test]
fn run_goes_on_until_solved_or_out_of_generations() {
    let genetic = Genetic::new(100, 2, 3, quarter(), twentieth(), 30);
    assert!(genetic.continues(0, &[3, 1, 5]));
    assert!(genetic.continues(99, &[3, 1, 5]));
    assert!(!genetic.continues(100, &[3, 1, 5]));
    assert!(!genetic.continues(101, &[3, 1, 5]));
    assert!(!genetic.continues(0, &[3, 0, 5]));
    assert!(!genetic.continues(50, &[0, 0, 0]));
}

#[test]
fn run_of_no_generations_never_goes_on() {
    let genetic = Genetic::new(0, 2, 3, quarter(), twentieth(), 30);
    assert!(!genetic.continues(0, &[3, 1, 5]));
}

#[test]
fn average_score_is_the_sum_over_the_count() {
    let genetic = Genetic::new(100, 2, 3, quarter(), twentieth(), 30);
    assert_eq!(genetic.avg_score_coordinate(3, &[1, 2, 4]), (3, 7, 3));
    assert_eq!(genetic.avg_score_coordinate(1, &[5]), (1, 5, 1));
    assert_eq!(genetic.avg_score_coordinate(100, &[0, 0, 0]), (100, 0, 3));
    assert_eq!(genetic.avg_score_coordinate(7, &[1, 2]), (7, 3, 2));
}

#[test]
fn average_score_is_not_rounded() {
    let genetic = Genetic::new(100, 2, 3, quarter(), twentieth(), 30);
    let (iter, sum, count) = genetic.avg_score_coordinate(1, &[1, 2]);
    assert_eq!(iter as f32, 1.0);
    assert_eq!(sum as f32 / count as f32, 1.5);
    let (_, sum, count) = genetic.avg_score_coordinate(2, &[1, 2, 4]);
    assert_eq!(3 * sum, 7 * count as u128);
}

#[test]
fn sum_of_the_largest_scores_fits() {
    let genetic = Genetic::new(100, 2, 3, quarter(), twentieth(), 30);
    assert_eq!(
        genetic.avg_score_coordinate(1, &[u64::MAX, u64::MAX, u64::MAX]),
        (1, 3 * (u64::MAX as u128), 3)
    );
}

#[test]
fn expression_of_a_chromosome_is_the_equation_with_its_genes() {
    let expected = Expr::BinOp {
        lhs: Box::new(Expr::BinOp {
            lhs: Box::new(Expr::Number("1".to_string())),
            op: Op::Multiply,
            rhs: Box::new(Expr::Number("10".to_string())),
        }),
        op: Op::Add,
        rhs: Box::new(Expr::BinOp {
            lhs: Box::new(Expr::Number("2".to_string())),
            op: Op::Multiply,
            rhs: Box::new(Expr::Number("7".to_string())),
        }),
    };
    assert_eq!(expression(&chromosome(&[10, 7]), "1a + 2b = 30"), Ok(expected));
}

#[test]
fn expression_of_a_bare_variable_does_not_parse() {
    assert_eq!(
        expression(&chromosome(&[3, 4]), "a + 2*b = 30"),
        Err(ParseError { kind: ParseErrorKind::EmptyAtom, position: 0 })
    );
}

#[test]
fn expression_with_too_few_genes_keeps_the_coefficient() {
    let expected = Expr::BinOp {
        lhs: Box::new(Expr::BinOp {
            lhs: Box::new(Expr::Number("2".to_string())),
            op: Op::Multiply,
            rhs: Box::new(Expr::Number("3".to_string())),
        }),
        op: Op::Add,
        rhs: Box::new(Expr::Number("3".to_string())),
    };
    assert_eq!(expression(&chromosome(&[3]), "2a + 3b = 30"), Ok(expected));
}

#[test]
fn expression_without_genes_of_a_bare_variable_is_empty() {
    assert_eq!(
        expression(&chromosome(&[]), "x=5"),
        Err(ParseError { kind: ParseErrorKind::EmptyAtom, position: 0 })
    );
}

#[test]
fn expressions_follow_the_population() {
    let pop = vec![chromosome(&[1]), chromosome(&[22]), chromosome(&[333])];
    let exprs = expressions(&pop, "5x = 10").unwrap();
    assert_eq!(exprs.len(), 3);
    for (expr, digits) in exprs.iter().zip(["1", "22", "333"]) {
        assert_eq!(
            *expr,
            Expr::BinOp {
                lhs: Box::new(Expr::Number("5".to_string())),
                op: Op::Multiply,
                rhs: Box::new(Expr::Number(digits.to_string())),
            }
        );
    }
}

#[test]
fn expressions_report_the_first_failure() {
    let pop = vec![chromosome(&[10, 2]), chromosome(&[3, 4])];
    assert_eq!(
        expressions(&pop, "1a + b = 10"),
        Err(ParseError { kind: ParseErrorKind::EmptyAtom, position: 5 })
    );
    let pop = vec![chromosome(&[3, 4]), chromosome(&[10, 2])];
    assert_eq!(
        expressions(&pop, "1a + b = 10"),
        Err(ParseError { kind: ParseErrorKind::EmptyAtom, position: 4 })
    );
}

#[test]
fn expressions_of_no_chromosomes_are_none() {
    assert_eq!(expressions(&Vec::new(), "a + 2*b = 30"), Ok(Vec::new()));
}

#[test]
fn same_chromosome_reads_the_same_twice() {
    let one = chromosome(&[12, 9]);
    assert_eq!(expression(&one, "1a + 2b = 30"), expression(&one, "1a + 2b = 30"));
}

#[test]
fn marked_flags_are_counted() {
    assert_eq!(count_marked(&[]), 0);
    assert_eq!(count_marked(&[false, false]), 0);
    assert_eq!(count_marked(&[true, false, true, true]), 3);
    assert_eq!(count_marked(&[true; 100]), 100);
}

#[test]
fn alphabetic_characters_are_flagged_in_order() {
    assert_eq!(alphabetic_marks("a + 2*b"), vec![true, false, false, false, false, false, true]);
    assert_eq!(alphabetic_marks("2\u{e9}\u{1f49d}"), vec![false, true, false]);
    assert_eq!(alphabetic_marks(""), Vec::<bool>::new());
    assert_eq!(count_marked(&alphabetic_marks("a + 2*b = 30")), 2);
}

#[test]
fn equation_has_one_gene_for_each_variable() {
    for equation in ["a + 2*b = 30", "2a + 3b + 4c + 5d = 30", "a+a", "12 + 3 = 15", "", "= 7", "2a = 1 = 2"] {
        assert!(gene_for_each_variable(equation));
        assert_eq!(Chromosome::countbits_from(equation), variable_count(equation) as u64);
    }
}

#[test]
fn equation_with_other_letters_has_genes_without_variables() {
    assert!(!gene_for_each_variable("2a = b"));
    assert!(!gene_for_each_variable("2\u{e9}"));
    assert!(!gene_for_each_variable("= a"));
    assert_eq!(Chromosome::countbits_from("2a = b"), 2);
    assert_eq!(variable_count("2a = b"), 1);
}
