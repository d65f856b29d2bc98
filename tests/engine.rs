use lgp::algorithm::{
    all_fit_exec, apply_selection, breed, evaluate, execute, init_population, is_ranked_exec, rank, run_step,
    HyperParameters, Ratio, Step, StepError,
};
use lgp::characteristics::Fitness;
use lgp::classification::{eval_fitness, eval_set_fitness, predict, strict_argmax, ClassificationParameters};
use lgp::fixtures::{TestInput, TestRepresent};
use lgp::instruction::{Executable, Instruction, InstructionGenerateParams, Mode, DIVIDE_BY_ZERO_SUBSTITUTE};
use lgp::iris::{IrisClass, IrisInput, IrisLgp};
use lgp::metrics::{Accuracy, Metric, ACCURACY_SCALE};
use lgp::population::Population;
use lgp::program::{Program, ProgramGenerateParams};
use lgp::registers::Registers;
use lgp::reinforcement_learning::{
    add_reward, episode_score, eval_fitness as eval_episodic, median, random_argmax, sort_scores,
    ReinforcementLearningInput, ReinforcementLearningParameters, Reward, StateRewardPair,
};
use rand::rngs::StdRng;
use rand::SeedableRng;

fn iris(sl: i64, sw: i64, pl: i64, pw: i64, class: IrisClass) -> IrisInput {
    IrisInput { sepal_length: sl, sepal_width: sw, petal_length: pl, petal_width: pw, class }
}

fn iris_sample() -> Vec<IrisInput> {
    vec![
        iris(51, 35, 14, 2, IrisClass::Setosa),
        iris(49, 30, 14, 2, IrisClass::Setosa),
        iris(47, 32, 13, 2, IrisClass::Setosa),
        iris(70, 32, 47, 14, IrisClass::Versicolour),
        iris(64, 32, 45, 15, IrisClass::Versicolour),
        iris(69, 31, 49, 15, IrisClass::Versicolour),
        iris(63, 33, 60, 25, IrisClass::Virginica),
        iris(58, 27, 51, 19, IrisClass::Virginica),
        iris(71, 30, 59, 21, IrisClass::Virginica),
    ]
}

fn half() -> Ratio {
    Ratio { numerator: 1, denominator: 2 }
}

fn iris_hyper_params() -> HyperParameters {
    HyperParameters {
        population_size: 100,
        gap: half(),
        n_mutations: half(),
        n_crossovers: half(),
        max_generations: 100,
        program_params: IrisLgp::program_params(100),
    }
}

fn program_of(instructions: Vec<Instruction>, n_registers: usize) -> Program {
    Program { instructions, registers: Registers::new(n_registers), fitness: None }
}

fn ins(op: Executable, mode: Mode, src: usize, dst: usize) -> Instruction {
    Instruction { op, mode, src, dst }
}

#[test]
fn given_inputs_and_hyperparams_when_population_is_initialized_then_population_generated_with_hyperparams_and_inputs() {
    let hyper_params = iris_hyper_params();
    let mut rng = StdRng::seed_from_u64(1);
    let population = init_population(&hyper_params, &mut rng);

    assert_eq!(population.len(), hyper_params.population_size);
    for individual in population.get_pop() {
        assert!(individual.instructions.len() <= hyper_params.program_params.max_instructions);
        assert_eq!(individual.registers.len(), 7);
        assert_eq!(individual.fitness, None);
        for instruction in &individual.instructions {
            assert!(instruction.dst < 7);
            match instruction.mode {
                Mode::External => assert!(instruction.src < 4),
                Mode::Internal => assert!(instruction.src < 7),
            }
        }
    }
}

#[test]
fn given_population_and_retention_rate_when_selection_occurs_then_population_is_cut_by_dropout() {
    let hyper_params = iris_hyper_params();
    let inputs = iris_sample();
    let mut rng = StdRng::seed_from_u64(2);
    let mut population = init_population(&hyper_params, &mut rng);
    evaluate(&mut population, &mut ClassificationParameters::new(&inputs, 3), &mut rng);
    rank(&mut population);
    apply_selection(&mut population, &hyper_params.gap);

    assert_eq!(population.len(), 50);
}

#[test]
fn given_population_when_breeding_occurs_then_population_capacity_is_met() {
    let hyper_params = iris_hyper_params();
    let inputs = iris_sample();
    let mut rng = StdRng::seed_from_u64(3);
    let mut population = init_population(&hyper_params, &mut rng);
    evaluate(&mut population, &mut ClassificationParameters::new(&inputs, 3), &mut rng);
    rank(&mut population);
    apply_selection(&mut population, &hyper_params.gap);

    let dropped_pop_len = population.len();
    assert!(dropped_pop_len < hyper_params.population_size);

    breed(
        &mut population,
        &hyper_params.n_mutations,
        &hyper_params.n_crossovers,
        &hyper_params.program_params,
        &mut rng,
    );

    assert_eq!(population.len(), hyper_params.population_size);
    for individual in population.get_pop() {
        assert!(individual.instructions.len() <= hyper_params.program_params.max_instructions);
    }
    for individual in &population.get_pop()[dropped_pop_len..] {
        assert_eq!(individual.fitness, None);
    }
}

#[test]
fn ranking_puts_unevaluated_programs_first_and_orders_by_fitness() {
    let mut population = Population::new(4);
    for fitness in [Some(5), None, Some(-2), Some(9)] {
        let mut program = program_of(vec![], 1);
        program.fitness = fitness;
        assert!(population.push(program).is_ok());
    }
    assert!(population.push(program_of(vec![], 1)).is_err());
    rank(&mut population);
    let order: Vec<Option<i64>> = population.get_pop().iter().map(|p| p.fitness).collect();
    assert_eq!(order, vec![None, Some(-2), Some(5), Some(9)]);
    assert_eq!(population.first().map(|p| p.fitness), Some(None));
    assert_eq!(population.last().map(|p| p.fitness), Some(Some(9)));
    assert_eq!(population.f_pop().map(|p| p.fitness), Some(None));
    assert_eq!(population.len(), 3);
    assert_eq!(population.capacity(), 4);
    population.get_mut_pop()[0].fitness = Some(100);
    assert_eq!(population.get(0).map(|p| p.fitness), Some(Some(100)));
    assert!(population.get(3).is_none());
    assert!(population.f_push(program_of(vec![], 1)).is_ok());
    assert_eq!(population.first().map(|p| p.fitness), Some(None));
    assert!(population.f_push(program_of(vec![], 1)).is_err());
}

#[test]
fn selection_drops_the_worst_end() {
    let mut population = Population::new(5);
    for fitness in 1..=5 {
        let mut program = program_of(vec![], 1);
        program.fitness = Some(fitness);
        assert!(population.push(program).is_ok());
    }
    apply_selection(&mut population, &Ratio { numerator: 3, denominator: 5 });
    let left: Vec<Option<i64>> = population.get_pop().iter().map(|p| p.fitness).collect();
    assert_eq!(left, vec![Some(4), Some(5)]);
}

#[test]
fn ratio_floors() {
    assert_eq!(Ratio { numerator: 1, denominator: 3 }.floor_of(10), 3);
    assert_eq!(Ratio { numerator: 1, denominator: 3 }.complement_floor_of(10), 6);
    assert_eq!(half().complement_floor_of(100), 50);
}

#[test]
fn a_program_that_marks_the_class_scores_perfectly_on_that_class_and_zero_elsewhere() {
    // Registers: three class registers, then four input registers. The one
    // instruction adds the first feature (always 1) into class register 1.
    let program = program_of(vec![ins(Executable::Add, Mode::External, 0, 1)], 7);
    let matching = vec![
        iris(1, 0, 0, 0, IrisClass::Versicolour),
        iris(1, 5, 9, 3, IrisClass::Versicolour),
    ];
    let other = vec![iris(1, 0, 0, 0, IrisClass::Setosa), iris(1, 2, 2, 2, IrisClass::Virginica)];
    assert_eq!(eval_fitness(&program, &matching, 3), ACCURACY_SCALE);
    assert_eq!(eval_fitness(&program, &other, 3), 0);
    let mixed = vec![matching[0], other[0], matching[1], other[1]];
    assert_eq!(eval_fitness(&program, &mixed, 3), ACCURACY_SCALE / 2);
}

#[test]
fn ties_count_as_misclassification() {
    // Nothing is written: all three class registers tie at zero.
    let program = program_of(vec![], 7);
    let records = vec![iris(1, 1, 1, 1, IrisClass::Setosa)];
    assert_eq!(predict(&program, &vec![1, 1, 1, 1], 3), None);
    assert_eq!(eval_fitness(&program, &records, 3), 0);
    assert_eq!(strict_argmax(&vec![2]), Some(2));
    assert_eq!(strict_argmax(&vec![0, 2]), None);
    assert_eq!(strict_argmax(&vec![]), None);
}

#[test]
fn fitness_is_cached_once_evaluated() {
    let mut program = program_of(vec![ins(Executable::Add, Mode::External, 0, 0)], 7);
    let records = vec![iris(1, 0, 0, 0, IrisClass::Setosa)];
    assert_eq!(eval_set_fitness(&mut program, &records, 3), ACCURACY_SCALE);
    let others = vec![iris(1, 0, 0, 0, IrisClass::Virginica)];
    assert_eq!(eval_set_fitness(&mut program, &others, 3), ACCURACY_SCALE);
    assert_eq!(program.fitness, Some(ACCURACY_SCALE));
}

#[test]
fn fitness_of_a_dataset_sums_the_records_run_alone() {
    let program = program_of(
        vec![
            ins(Executable::Add, Mode::External, 0, 0),
            ins(Executable::Subtract, Mode::External, 1, 0),
            ins(Executable::Add, Mode::External, 1, 2),
        ],
        7,
    );
    let a = iris(5, 1, 0, 0, IrisClass::Setosa);
    let b = iris(1, 5, 0, 0, IrisClass::Virginica);
    let c = iris(1, 5, 0, 0, IrisClass::Setosa);
    let each: i64 = [a, b, c]
        .iter()
        .map(|r| eval_fitness(&program, &vec![*r], 3) / ACCURACY_SCALE)
        .sum();
    let together = eval_fitness(&program, &vec![a, b, c], 3);
    assert_eq!(each, 2);
    assert_eq!(together, 2 * ACCURACY_SCALE / 3);
    let fitness = eval_fitness(&program, &vec![a, b, c, a], 3);
    assert!(0 <= fitness && fitness <= ACCURACY_SCALE);
}

#[test]
fn exec_leaves_the_program_as_it_was() {
    let program = program_of(
        vec![
            ins(Executable::Add, Mode::External, 2, 4),
            ins(Executable::Multiply, Mode::Internal, 4, 4),
            ins(Executable::Subtract, Mode::Internal, 4, 1),
        ],
        7,
    );
    let before = program.clone();
    let input = vec![3, 4, 5, 6];
    let first = program.exec(&input);
    let second = program.exec(&input);
    assert_eq!(first, second);
    assert_eq!(first, Registers::from(vec![0, -25, 0, 0, 25, 0, 0]));
    assert_eq!(program, before);
}

#[test]
fn protected_divide_substitutes_the_divisor() {
    let program = program_of(vec![ins(Executable::Divide, Mode::External, 0, 0)], 2);
    let mut zeroed = program.clone();
    zeroed.registers = Registers::from(vec![9, 0]);
    assert_eq!(zeroed.exec(&vec![0]), Registers::from(vec![9 / DIVIDE_BY_ZERO_SUBSTITUTE, 0]));
    assert_eq!(zeroed.exec(&vec![3]), Registers::from(vec![3, 0]));
    assert_eq!(program.exec(&vec![0]), Registers::from(vec![0, 0]));
    assert_eq!(Executable::Divide.eval(7, 0), 3);
    assert_eq!(Executable::Divide.eval(-7, 0), -3);
    assert_eq!(Executable::Divide.eval(-7, 2), -3);
    assert_eq!(Executable::Divide.eval(i64::MIN, -1), i64::MAX);
    assert_eq!(Executable::Multiply.eval(i64::MAX, 2), i64::MAX);
    assert_eq!(Executable::Subtract.eval(i64::MIN, 1), i64::MIN);
    assert_eq!(Executable::Add.eval(2, 3), 5);
}

#[test]
fn an_instruction_reads_its_operand_modulo_the_space() {
    let mut registers = Registers::from(vec![1, 2, 3]);
    ins(Executable::Add, Mode::Internal, 4, 5).apply(&mut registers, &vec![]);
    assert_eq!(registers, Registers::from(vec![1, 2, 5]));
    ins(Executable::Add, Mode::External, 3, 0).apply(&mut registers, &vec![10, 20]);
    assert_eq!(registers, Registers::from(vec![21, 2, 5]));
    ins(Executable::Add, Mode::External, 3, 0).apply(&mut registers, &vec![]);
    assert_eq!(registers, Registers::from(vec![21, 2, 5]));
}

#[test]
fn registers_report_every_tied_maximum() {
    let mut registers = Registers::from(vec![3, 7, 7, 1, 7]);
    assert_eq!(registers.argmax(0, 5), vec![1, 2, 4]);
    assert_eq!(registers.argmax(0, 2), vec![1]);
    assert_eq!(registers.argmax(3, 4), vec![3]);
    assert_eq!(registers.slice(1, 3), vec![7, 7, 1]);
    registers.update(0, 9);
    assert_eq!(registers.get_value_at_index(0), 9);
    registers.reset();
    assert_eq!(registers, Registers::new(5));
    assert_eq!(registers.len(), 5);
}

#[test]
fn random_tie_break_picks_one_of_the_maxima() {
    let registers = Registers::from(vec![4, 1, 4, 9]);
    let mut rng = StdRng::seed_from_u64(4);
    for _ in 0..20 {
        let pick = random_argmax(&registers, 3, &mut rng);
        assert!(pick == 0 || pick == 2);
    }
}

#[test]
fn crossover_swaps_the_segments() {
    let a: Vec<Instruction> = (0..5).map(|i| ins(Executable::Add, Mode::Internal, i, 0)).collect();
    let b: Vec<Instruction> = (0..4).map(|i| ins(Executable::Multiply, Mode::External, i, 1)).collect();
    let pa = program_of(a.clone(), 2);
    let pb = program_of(b.clone(), 2);
    let (first, second) = pa.two_point_crossover_at(&pb, (1, 3), (0, 4), 100);
    let expected_first: Vec<Instruction> = vec![a[0], b[0], b[1], b[2], b[3], a[3], a[4]];
    let expected_second: Vec<Instruction> = vec![a[1], a[2]];
    assert_eq!(first.instructions, expected_first);
    assert_eq!(second.instructions, expected_second);
    let (capped, _) = pa.two_point_crossover_at(&pb, (1, 3), (0, 4), 3);
    assert_eq!(capped.instructions, vec![a[0], b[0], b[1]]);

    let mut rng = StdRng::seed_from_u64(5);
    for _ in 0..20 {
        let (x, y) = pa.two_point_crossover(&pb, 6, &mut rng);
        assert!(x.instructions.len() <= 6 && y.instructions.len() <= 6);
        assert_eq!(x.fitness, None);
        for i in x.instructions.iter().chain(y.instructions.iter()) {
            assert!(a.contains(i) || b.contains(i));
        }
    }
}

#[test]
fn mutation_changes_at_most_one_field_of_one_instruction() {
    let params = IrisLgp::program_params(20);
    let mut rng = StdRng::seed_from_u64(6);
    for _ in 0..20 {
        let mut program = Program::generate(&params, &mut rng);
        program.fitness = Some(1);
        let child = program.mutate(&params, &mut rng);
        assert_eq!(child.fitness, None);
        assert_eq!(child.instructions.len(), program.instructions.len());
        let changed: Vec<usize> = (0..child.instructions.len())
            .filter(|&k| child.instructions[k] != program.instructions[k])
            .collect();
        assert!(changed.len() <= 1);
        for &k in &changed {
            let (x, y) = (program.instructions[k], child.instructions[k]);
            let fields = (x.op != y.op) as u8 + (x.mode != y.mode) as u8 + (x.src != y.src) as u8 + (x.dst != y.dst) as u8;
            assert_eq!(fields, 1);
        }
    }
    let instruction_params = InstructionGenerateParams { n_registers: 7, n_inputs: 4, executables: IrisLgp::executables() };
    let original = ins(Executable::Add, Mode::Internal, 6, 6);
    for _ in 0..20 {
        let mutated = original.mutate(&instruction_params, &mut rng);
        assert!(mutated.dst < 7 && mutated.src < 7);
    }
}

#[test]
fn accuracy_ignores_the_order_of_observations() {
    let mut forward = Accuracy::new(0, 0);
    let mut backward = Accuracy::new(0, 0);
    let stream = [(Some(1), Some(1)), (None, Some(0)), (Some(2), Some(0)), (Some(0), Some(0))];
    for o in stream {
        forward.observe(o);
    }
    for o in stream.iter().rev() {
        backward.observe(*o);
    }
    assert_eq!(forward, backward);
    assert_eq!(forward, Accuracy(2, 4));
    assert_eq!(forward.calculate(), ACCURACY_SCALE / 2);
    assert_eq!(Accuracy::new(0, 0).calculate(), 0);
    assert_eq!(Accuracy::new(1, 3).calculate(), 333_333);
}

struct Scripted {
    rewards: Vec<i64>,
    run: usize,
    calls: Vec<&'static str>,
}

impl ReinforcementLearningInput for Scripted {
    fn init(&mut self) {
        self.calls.push("init");
    }

    fn act(&mut self, _action: usize) -> StateRewardPair {
        StateRewardPair { state: vec![0, 0], reward: Reward::Terminal(self.rewards[self.run]) }
    }

    fn reset(&mut self) {
        self.run += 1;
        self.calls.push("reset");
    }

    fn get_state(&self) -> Vec<i64> {
        vec![self.run as i64, 1]
    }

    fn finish(&mut self) {
        self.calls.push("finish");
    }
}

#[test]
fn episodic_fitness_is_the_median_of_the_runs() {
    let mut program = program_of(vec![ins(Executable::Add, Mode::External, 0, 0)], 5);
    let mut parameters = ReinforcementLearningParameters::new(
        5,
        10,
        3,
        Scripted { rewards: vec![1, 2, 3, 4, 5], run: 0, calls: vec![] },
    );
    let mut rng = StdRng::seed_from_u64(7);
    assert_eq!(eval_episodic(&mut program, &mut parameters, &mut rng), 3);
    assert_eq!(program.fitness, Some(3));
    assert_eq!(parameters.environment.calls.first(), Some(&"init"));
    assert_eq!(parameters.environment.calls.last(), Some(&"finish"));
    assert_eq!(parameters.environment.calls.len(), 7);

    parameters.environment = Scripted { rewards: vec![5, 1, 4, 2, 3], run: 0, calls: vec![] };
    assert_eq!(eval_episodic(&mut program, &mut parameters, &mut rng), 3);

    // A program that holds a score keeps it when scored through the trait.
    parameters.environment = Scripted { rewards: vec![9, 9, 9, 9, 9], run: 0, calls: vec![] };
    assert_eq!(parameters.eval_set_fitness(&mut program, &mut rng), 3);
    assert!(parameters.environment.calls.is_empty());
    program.fitness = None;
    assert_eq!(parameters.eval_set_fitness(&mut program, &mut rng), 9);
}

struct Steady {
    steps: usize,
}

impl ReinforcementLearningInput for Steady {
    fn init(&mut self) {}

    fn act(&mut self, _action: usize) -> StateRewardPair {
        self.steps += 1;
        StateRewardPair { state: vec![1], reward: Reward::Continue(-1) }
    }

    fn reset(&mut self) {}

    fn get_state(&self) -> Vec<i64> {
        vec![1]
    }

    fn finish(&mut self) {}
}

#[test]
fn an_episode_without_terminal_reward_runs_its_full_length() {
    let mut program = program_of(vec![], 2);
    let mut parameters = ReinforcementLearningParameters::new(3, 4, 1, Steady { steps: 0 });
    let mut rng = StdRng::seed_from_u64(8);
    assert_eq!(eval_episodic(&mut program, &mut parameters, &mut rng), -4);
    assert_eq!(parameters.environment.steps, 12);
}

#[test]
fn an_episode_scores_its_rewards_up_to_the_first_terminal_one() {
    let outcomes = vec![
        StateRewardPair { state: vec![], reward: Reward::Continue(2) },
        StateRewardPair { state: vec![], reward: Reward::Continue(-5) },
        StateRewardPair { state: vec![], reward: Reward::Terminal(10) },
        StateRewardPair { state: vec![], reward: Reward::Continue(100) },
    ];
    assert_eq!(episode_score(&outcomes), 7);
    assert_eq!(episode_score(&outcomes[..2].to_vec()), -3);
    assert_eq!(episode_score(&vec![]), 0);
    let saturating = vec![
        StateRewardPair { state: vec![], reward: Reward::Continue(i64::MAX) },
        StateRewardPair { state: vec![], reward: Reward::Continue(1) },
        StateRewardPair { state: vec![], reward: Reward::Terminal(-1) },
    ];
    assert_eq!(episode_score(&saturating), i64::MAX - 1);
}

#[test]
fn medians_and_rewards() {
    assert_eq!(median(vec![9, 1, 5, 3]), 5);
    assert_eq!(median(vec![-2]), -2);
    assert_eq!(sort_scores(vec![3, -1, 2, -1]), vec![-1, -1, 2, 3]);
    assert_eq!(add_reward(i64::MAX, 1), i64::MAX);
    assert_eq!(add_reward(2, -5), -3);
    let pair = StateRewardPair { state: vec![], reward: Reward::Terminal(4) };
    assert_eq!(pair.get_value(), 4);
    assert!(pair.is_terminal());
    let pair = StateRewardPair { state: vec![], reward: Reward::Continue(-4) };
    assert_eq!(pair.get_value(), -4);
    assert!(!pair.is_terminal());
}

#[test]
fn binary_task_records_decode_their_class() {
    let records = vec![TestInput([1, 0, 0, 0, 0]), TestInput([0, 0, 0, 0, 1])];
    let program = program_of(vec![ins(Executable::Add, Mode::External, 0, 0)], 6);
    assert_eq!(eval_fitness(&program, &records, 2), ACCURACY_SCALE / 2);
    assert_eq!(TestRepresent::from_index(1), Some(TestRepresent::Two));
    assert_eq!(TestRepresent::from_index(2), None);
    assert_eq!(IrisClass::from_index(2), Some(IrisClass::Virginica));
    assert_eq!(IrisClass::Versicolour.index(), 1);
}

#[test]
fn a_full_run_keeps_the_population_full() {
    let hyper_params = HyperParameters {
        population_size: 12,
        gap: half(),
        n_mutations: Ratio { numerator: 1, denominator: 4 },
        n_crossovers: half(),
        max_generations: 5,
        program_params: IrisLgp::program_params(10),
    };
    let mut rng = StdRng::seed_from_u64(9);
    let inputs = iris_sample();
    let population = execute(&hyper_params, &mut ClassificationParameters::new(&inputs, 3), &mut rng);
    assert_eq!(population.len(), 12);
    for individual in population.get_pop() {
        assert!(individual.instructions.len() <= 10);
    }
}

#[test]
fn program_params_describe_the_bank() {
    let params: ProgramGenerateParams = IrisLgp::program_params(8);
    let instruction_params = params.instruction_params();
    assert_eq!(instruction_params.n_registers, 7);
    assert_eq!(instruction_params.n_inputs, 4);
    assert_eq!(instruction_params.executables, IrisLgp::executables());
}

#[test]
fn settings_that_cannot_run_are_refused() {
    let good = iris_hyper_params();
    assert!(good.check());
    let mut too_few_survivors = iris_hyper_params();
    too_few_survivors.gap = Ratio { numerator: 99, denominator: 100 };
    assert!(!too_few_survivors.check());
    let mut too_much_breeding = iris_hyper_params();
    too_much_breeding.n_mutations = Ratio { numerator: 3, denominator: 4 };
    assert!(!too_much_breeding.check());
    let mut not_a_fraction = iris_hyper_params();
    not_a_fraction.gap = Ratio { numerator: 3, denominator: 2 };
    assert!(!not_a_fraction.check());
    let mut no_population = iris_hyper_params();
    no_population.population_size = 0;
    assert!(!no_population.check());
    let mut no_ops = iris_hyper_params();
    no_ops.program_params.executables = vec![];
    assert!(!no_ops.check());
}

#[test]
fn a_step_refuses_a_population_it_cannot_run_on() {
    let hyper_params = iris_hyper_params();
    let inputs = iris_sample();
    let mut evaluator = ClassificationParameters::new(&inputs, 3);
    let mut rng = StdRng::seed_from_u64(11);
    let mut population = init_population(&hyper_params, &mut rng);

    // Fresh programs are unscored and equal in rank, so they count as ranked;
    // put a scored one first to unrank them.
    population.get_mut_pop()[0].fitness = Some(5);
    assert!(!is_ranked_exec(population.get_pop()));
    assert_eq!(run_step(&mut population, Step::Select, &hyper_params, &mut evaluator, &mut rng), Err(StepError::Unranked));
    assert_eq!(population.len(), 100);

    assert!(all_fit_exec(population.get_pop(), &hyper_params.program_params));
    assert_eq!(run_step(&mut population, Step::Evaluate, &hyper_params, &mut evaluator, &mut rng), Ok(()));
    assert!(population.get_pop().iter().all(|p| p.fitness.is_some()));
    assert_eq!(run_step(&mut population, Step::Rank, &hyper_params, &mut evaluator, &mut rng), Ok(()));
    assert!(is_ranked_exec(population.get_pop()));
    assert_eq!(run_step(&mut population, Step::Select, &hyper_params, &mut evaluator, &mut rng), Ok(()));
    assert_eq!(population.len(), 50);
    assert_eq!(run_step(&mut population, Step::Breed, &hyper_params, &mut evaluator, &mut rng), Ok(()));
    assert_eq!(population.len(), 100);

    // An observer that empties the population stops selection and breeding.
    population.get_mut_pop().clear();
    assert_eq!(run_step(&mut population, Step::Select, &hyper_params, &mut evaluator, &mut rng), Err(StepError::BadSize));
    assert_eq!(run_step(&mut population, Step::Breed, &hyper_params, &mut evaluator, &mut rng), Err(StepError::BadSize));

    // A program with a register bank of the wrong size is unfit.
    population.get_mut_pop().push(program_of(vec![], 3));
    population.get_mut_pop().push(program_of(vec![], 7));
    assert!(!all_fit_exec(population.get_pop(), &hyper_params.program_params));
    assert_eq!(run_step(&mut population, Step::Evaluate, &hyper_params, &mut evaluator, &mut rng), Err(StepError::Unfit));
    assert_eq!(run_step(&mut population, Step::Breed, &hyper_params, &mut evaluator, &mut rng), Err(StepError::Unfit));
    assert_eq!(Step::Breed.next(), Step::Evaluate);
    assert_eq!(Step::Evaluate.next(), Step::Rank);
}

#[test]
fn bred_programs_come_from_the_survivors() {
    let hyper_params = iris_hyper_params();
    let inputs = iris_sample();
    let mut evaluator = ClassificationParameters::new(&inputs, 3);
    let mut rng = StdRng::seed_from_u64(12);
    let mut population = init_population(&hyper_params, &mut rng);
    evaluate(&mut population, &mut evaluator, &mut rng);
    rank(&mut population);
    apply_selection(&mut population, &hyper_params.gap);
    let survivors: Vec<Program> = population.get_pop().clone();
    breed(&mut population, &hyper_params.n_mutations, &hyper_params.n_crossovers, &hyper_params.program_params, &mut rng);
    for child in &population.get_pop()[survivors.len()..] {
        for ins in &child.instructions {
            assert!(survivors.iter().any(|s| s.instructions.contains(ins)));
        }
        assert!(survivors.iter().any(|s| s.registers == child.registers));
    }
}

#[test]
fn an_invalid_instruction_is_unfit() {
    let params = IrisLgp::program_params(5);
    let only_add = ProgramGenerateParams { executables: vec![Executable::Add], ..params.clone() };
    let good = program_of(vec![ins(Executable::Add, Mode::Internal, 6, 6)], 7);
    assert!(all_fit_exec(&vec![good.clone()], &only_add));
    let bad_op = program_of(vec![ins(Executable::Divide, Mode::Internal, 0, 0)], 7);
    assert!(!all_fit_exec(&vec![good.clone(), bad_op], &only_add));
    let bad_dst = program_of(vec![ins(Executable::Add, Mode::Internal, 0, 7)], 7);
    assert!(!all_fit_exec(&vec![bad_dst], &params));
    let too_long = program_of(vec![ins(Executable::Add, Mode::Internal, 0, 0); 6], 7);
    assert!(!all_fit_exec(&vec![too_long], &params));
}
