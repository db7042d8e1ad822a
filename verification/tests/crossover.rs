use rand::rngs::StdRng;
use rand::SeedableRng;
use rustnetic::chromosome::Chromosome;
use rustnetic::crossover::{cross, parents, recombine};
use rustnetic::genetic::Genetic;
use rustnetic::rate::Rate;

fn chromosome(genes: &[i32]) -> Chromosome {
    Chromosome { genes: genes.to_vec() }
}

fn three() -> Vec<Chromosome> {
    vec![chromosome(&[1, 2, 3]), chromosome(&[4, 5, 6]), chromosome(&[7, 8, 9])]
}

fn engine(numer: u32, denom: u32) -> Genetic {
    Genetic::new(100, 3, 3, Rate::new(numer, denom).unwrap(), Rate::new(5, 100).unwrap(), 30)
}

#[test]
fn offspring_is_cut_from_both_parents() {
    let first = chromosome(&[1, 2, 3, 4]);
    let second = chromosome(&[5, 6, 7, 8]);
    assert_eq!(cross(&first, &second, 0), chromosome(&[5, 6, 7, 8]));
    assert_eq!(cross(&first, &second, 1), chromosome(&[1, 6, 7, 8]));
    assert_eq!(cross(&first, &second, 3), chromosome(&[1, 2, 3, 8]));
    assert_eq!(cross(&first, &second, 4), chromosome(&[1, 2, 3, 4]));
}

#[test]
fn parents_are_the_marked_chromosomes_in_order() {
    assert_eq!(
        parents(&three(), &[true, false, true]),
        vec![chromosome(&[1, 2, 3]), chromosome(&[7, 8, 9])]
    );
    assert_eq!(parents(&three(), &[false, false, false]), Vec::new());
    assert_eq!(parents(&three(), &[true, true, true]), three());
}

#[test]
fn offspring_overwrite_the_front_of_the_population() {
    let mut pop = three();
    engine(1, 4).crossover_by(&mut pop, &[false, true, true], &[1, 2]);
    assert_eq!(pop, vec![chromosome(&[4, 8, 9]), chromosome(&[7, 8, 6]), chromosome(&[7, 8, 9])]);
}

#[test]
fn last_parent_pairs_with_the_first() {
    let mut pop = three();
    engine(1, 4).crossover_by(&mut pop, &[true, true, true], &[1, 1, 1]);
    assert_eq!(pop, vec![chromosome(&[1, 5, 6]), chromosome(&[4, 8, 9]), chromosome(&[7, 2, 3])]);
}

#[test]
fn single_parent_pairs_with_itself() {
    let mut pop = three();
    engine(1, 4).crossover_by(&mut pop, &[false, true, false], &[1]);
    assert_eq!(pop, vec![chromosome(&[4, 5, 6]), chromosome(&[4, 5, 6]), chromosome(&[7, 8, 9])]);
}

#[test]
fn crossover_without_parents_changes_nothing() {
    let mut pop = three();
    engine(1, 4).crossover_by(&mut pop, &[false, false, false], &[]);
    assert_eq!(pop, three());
}

#[test]
fn recombine_leaves_the_places_behind_the_parents() {
    let mut pop = three();
    let chosen = vec![chromosome(&[10, 20, 30]), chromosome(&[40, 50, 60])];
    recombine(&mut pop, &chosen, &[2, 0]);
    assert_eq!(
        pop,
        vec![chromosome(&[10, 20, 60]), chromosome(&[10, 20, 30]), chromosome(&[7, 8, 9])]
    );
}

#[test]
fn crossover_at_rate_zero_changes_nothing() {
    let mut rng = StdRng::seed_from_u64(21);
    for _ in 0..20 {
        let mut pop = three();
        engine(0, 1).crossover(&mut pop, &mut rng);
        assert_eq!(pop, three());
    }
}

#[test]
fn crossover_keeps_the_size_and_the_gene_count() {
    let mut rng = StdRng::seed_from_u64(22);
    for _ in 0..100 {
        let mut pop = three();
        engine(1, 2).crossover(&mut pop, &mut rng);
        assert_eq!(pop.len(), 3);
        assert!(pop.iter().all(|c| c.genes.len() == 3));
    }
}

#[test]
fn crossover_keeps_each_gene_in_its_column() {
    let mut rng = StdRng::seed_from_u64(23);
    let before = three();
    for _ in 0..100 {
        let mut pop = three();
        engine(1, 1).crossover(&mut pop, &mut rng);
        for c in pop.iter() {
            for (j, g) in c.genes.iter().enumerate() {
                assert!(before.iter().any(|b| b.genes[j] == *g));
            }
        }
    }
}

#[test]
fn crossover_at_rate_one_crosses_every_neighbour() {
    let mut rng = StdRng::seed_from_u64(24);
    let mut pop = three();
    engine(1, 1).crossover(&mut pop, &mut rng);
    let before = three();
    for (i, c) in pop.iter().enumerate() {
        let mate = &before[(i + 1) % 3];
        let cut = (0..3).find(|r| c.genes[..*r] == before[i].genes[..*r] && c.genes[*r..] == mate.genes[*r..]);
        assert!(cut.is_some());
    }
}

#[test]
fn crossover_of_an_empty_population_is_empty() {
    let mut pop: Vec<Chromosome> = Vec::new();
    let mut rng = StdRng::seed_from_u64(25);
    Genetic::new(1, 0, 0, Rate::new(1, 1).unwrap(), Rate::new(1, 1).unwrap(), 0)
        .crossover(&mut pop, &mut rng);
    assert!(pop.is_empty());
}

#[test]
fn crossover_at_rate_one_makes_every_chromosome_a_parent() {
    let mut rng = StdRng::seed_from_u64(26);
    let before: Vec<Chromosome> = (0..6).map(|i| chromosome(&[i, 10 + i, 20 + i])).collect();
    for _ in 0..50 {
        let mut pop = before.clone();
        engine(7, 7).crossover(&mut pop, &mut rng);
        for (i, c) in pop.iter().enumerate() {
            let mate = &before[(i + 1) % 6];
            assert!((0..3).any(|r| c.genes[..r] == before[i].genes[..r]
                && c.genes[r..] == mate.genes[r..]));
        }
    }
}
