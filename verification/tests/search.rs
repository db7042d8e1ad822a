use rand::rngs::StdRng;
use rand::SeedableRng;
use rustnetic::chromosome::{copies, Chromosome};
use rustnetic::genetic::Genetic;
use rustnetic::rate::Rate;
use rustnetic::search::{Phase, Search};

fn parameters(n_iter: u64, n_bits: u64, n_pop: u64, target: i32) -> Genetic {
    Genetic::new(n_iter, n_bits, n_pop, Rate::new(25, 100).unwrap(), Rate::new(5, 100).unwrap(), target)
}

fn sums(pop: &Vec<Chromosome>) -> Vec<i32> {
    pop.iter().map(|c| c.genes[0] + 2 * c.genes[1]).collect()
}

#[test]
fn search_starts_with_an_unscored_first_population() {
    let genetic = parameters(100, 2, 20, 30);
    let search = Search::start(genetic, &mut StdRng::seed_from_u64(51)).unwrap();
    assert_eq!(search.phase(), Phase::Unscored);
    assert_eq!(search.generation(), 0);
    assert_eq!(search.fitness(), None);
    assert_eq!(search.population().len(), 20);
    assert!(search.population().iter().all(|c| c.genes.len() == 2));
    assert!(search.population().iter().all(|c| c.genes.iter().all(|g| 0 <= *g && *g <= 30)));
    assert_eq!(search.genetic().n_pop, 20);
    assert_eq!(search.genetic().target, 30);
}

#[test]
fn search_is_refused_where_no_run_can_be_made() {
    let mut rng = StdRng::seed_from_u64(52);
    assert!(!parameters(100, 2, 20, -1).can_run());
    assert!(Search::start(parameters(100, 2, 20, -1), &mut rng).is_none());
    assert!(Search::start(parameters(100, 0, 20, 30), &mut rng).is_none());
    assert!(Search::start(parameters(100, 2, 20, 0), &mut rng).is_none());
}

#[test]
fn search_is_made_at_the_edges_of_its_parameters() {
    let mut rng = StdRng::seed_from_u64(53);
    assert!(parameters(100, 2, 20, 1).can_run());
    assert!(Search::start(parameters(100, 2, 9, 0), &mut rng).is_some());
    assert!(Search::start(parameters(100, 0, 0, 30), &mut rng).is_some());
    assert!(Search::start(parameters(0, 2, 20, 30), &mut rng).is_some());
    let never = Genetic::new(5, 0, 3, Rate::new(0, 1).unwrap(), Rate::new(1, 1).unwrap(), 0);
    assert!(Search::start(never, &mut rng).is_some());
}

#[test]
fn score_takes_one_value_for_each_chromosome() {
    let mut search = Search::start(parameters(100, 2, 4, 30), &mut StdRng::seed_from_u64(54)).unwrap();
    assert!(!search.score(&[1, 2, 3]));
    assert!(!search.score(&[1, 2, 3, 4, 5]));
    assert_eq!(search.phase(), Phase::Unscored);
    assert!(search.score(&[29, 35, -30, 31]));
    assert_eq!(search.phase(), Phase::Scored);
    assert_eq!(search.fitness(), Some(&vec![1, 5, 60, 1]));
    assert!(!search.score(&[29, 35, -30, 31]));
    assert_eq!(search.fitness(), Some(&vec![1, 5, 60, 1]));
}

#[test]
fn solution_finishes_the_search() {
    let mut search = Search::start(parameters(100, 2, 4, 30), &mut StdRng::seed_from_u64(55)).unwrap();
    let before = copies(search.population());
    assert!(search.score(&[29, 30, -30, 31]));
    assert_eq!(search.phase(), Phase::Finished);
    assert!(!search.advance(&mut StdRng::seed_from_u64(56)));
    assert_eq!(search.phase(), Phase::Finished);
    assert_eq!(search.generation(), 0);
    assert_eq!(*search.population(), before);
    assert_eq!(search.fitness(), Some(&vec![1, 0, 60, 1]));
}

#[test]
fn unscored_population_is_not_evolved() {
    let mut search = Search::start(parameters(100, 2, 4, 30), &mut StdRng::seed_from_u64(57)).unwrap();
    let before = copies(search.population());
    assert!(!search.advance(&mut StdRng::seed_from_u64(58)));
    assert_eq!(search.phase(), Phase::Unscored);
    assert_eq!(*search.population(), before);
}

#[test]
fn advance_evolves_one_generation() {
    let mut rng = StdRng::seed_from_u64(59);
    let mut search = Search::start(parameters(100, 2, 4, 30), &mut rng).unwrap();
    assert!(search.score(&[29, 35, -30, 31]));
    assert!(search.advance(&mut rng));
    assert_eq!(search.phase(), Phase::Unscored);
    assert_eq!(search.generation(), 1);
    assert_eq!(search.fitness(), None);
    assert_eq!(search.population().len(), 4);
    assert!(search.population().iter().all(|c| c.genes.len() == 2));
    assert!(!search.advance(&mut rng));
    assert_eq!(search.generation(), 1);
}

#[test]
fn search_without_solution_ends_after_all_generations() {
    let mut rng = StdRng::seed_from_u64(60);
    let mut search = Search::start(parameters(7, 2, 5, 30), &mut rng).unwrap();
    assert!(search.score(&[1, 1, 1, 1, 1]));
    let mut rounds = 0;
    while search.advance(&mut rng) {
        rounds += 1;
        assert_eq!(search.generation(), rounds);
        assert!(search.score(&[1, 1, 1, 1, 1]));
        assert_eq!(search.population().len(), 5);
    }
    assert_eq!(rounds, 7);
    assert_eq!(search.phase(), Phase::Finished);
    assert_eq!(search.generation(), 7);
}

#[test]
fn search_of_no_generations_is_over_once_scored() {
    let mut rng = StdRng::seed_from_u64(61);
    let mut search = Search::start(parameters(0, 2, 5, 30), &mut rng).unwrap();
    assert!(search.score(&[1, 1, 1, 1, 1]));
    assert_eq!(search.phase(), Phase::Finished);
    assert!(!search.advance(&mut rng));
}

#[test]
fn search_stops_at_the_first_solution() {
    let genetic = parameters(100, 2, 20, 30);
    let mut solved = 0;
    for seed in 100..120 {
        let mut rng = StdRng::seed_from_u64(seed);
        let mut search = Search::start(genetic, &mut rng).unwrap();
        let first = sums(search.population());
        assert!(search.score(&first));
        while search.advance(&mut rng) {
            let f_obj_len = search.population().len();
            assert_eq!(f_obj_len as u64, genetic.n_pop);
            let next = sums(search.population());
            assert!(search.score(&next));
            assert_eq!(search.fitness().unwrap().len(), f_obj_len);
        }
        assert_eq!(search.phase(), Phase::Finished);
        let f_obj = search.fitness().unwrap();
        let found = f_obj.iter().any(|f| *f == 0);
        assert!(found || search.generation() == 100);
        if found {
            solved += 1;
            assert!(sums(search.population()).iter().any(|v| *v == 30));
        }
    }
    assert!(solved > 0);
}

#[test]
fn search_with_the_same_seed_is_the_same() {
    let genetic = parameters(30, 2, 10, 1000);
    let mut ends = Vec::new();
    for _ in 0..2 {
        let mut rng = StdRng::seed_from_u64(62);
        let mut search = Search::start(genetic, &mut rng).unwrap();
        let first = sums(search.population());
        search.score(&first);
        while search.advance(&mut rng) {
            let next = sums(search.population());
            search.score(&next);
        }
        ends.push((search.generation(), copies(search.population())));
    }
    assert_eq!(ends[0], ends[1]);
}

#[test]
fn copies_keep_the_genes_and_the_order() {
    let pop = vec![Chromosome { genes: vec![1, 2] }, Chromosome { genes: vec![] }, Chromosome { genes: vec![3] }];
    assert_eq!(copies(&pop), pop);
    assert_eq!(copies(&Vec::new()), Vec::new());
}
