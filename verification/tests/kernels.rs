use multi_thread_rust::counter::Counter;
use multi_thread_rust::counter::run_increments;
use multi_thread_rust::par_iter::compute_intensive;
use multi_thread_rust::par_iter::parallel_filter_sum;
use multi_thread_rust::par_iter::parallel_map;
use multi_thread_rust::par_iter::parallel_sort;
use multi_thread_rust::par_iter::sequential_filter_sum;
use multi_thread_rust::par_iter::sequential_map;

#[test]
fn counter_counts_each_increment() {
    let mut c = Counter::new();
    assert_eq!(c.get_value(), 0);
    for _ in 0..10 {
        c.increment();
    }
    assert_eq!(c.get_value(), 10);
}

#[test]
fn run_increments_reaches_the_product() {
    assert_eq!(run_increments(8, 50), 400);
    assert_eq!(run_increments(5, 1000), 5000);
    assert_eq!(run_increments(3, 0), 0);
}

#[test]
fn compute_intensive_sums_squares() {
    // 0*0 + 1*1 + 2*2 = 5; adding 3*3 and 4*4 gives 30.
    assert_eq!(compute_intensive(0), 0);
    assert_eq!(compute_intensive(1), 0);
    assert_eq!(compute_intensive(3), 5);
    assert_eq!(compute_intensive(5), 30);
}

#[test]
fn parallel_map_matches_sequential_map() {
    let data: Vec<u64> = (0..200).collect();
    let seq = sequential_map(&data);
    let par = parallel_map(&data);
    assert_eq!(seq, par);
    assert_eq!(par[3], 5);
    assert_eq!(par[5], 30);
}

#[test]
fn filter_sum_adds_squares_of_even_elements() {
    let data: Vec<u64> = vec![0, 1, 2, 3, 4];
    // 0 + 4 + 16 = 20.
    assert_eq!(sequential_filter_sum(&data), 20);
    assert_eq!(parallel_filter_sum(&data), 20);
    let bigger: Vec<u64> = (0..1000).collect();
    assert_eq!(sequential_filter_sum(&bigger), parallel_filter_sum(&bigger));
}

#[test]
fn parallel_sort_orders_and_keeps_elements() {
    let mut data: Vec<u64> = vec![5, 3, 3, 9, 0, 7];
    parallel_sort(&mut data);
    assert_eq!(data, vec![0, 3, 3, 5, 7, 9]);
    let mut reversed: Vec<u64> = (0..500u64).rev().collect();
    parallel_sort(&mut reversed);
    assert_eq!(reversed, (0..500u64).collect::<Vec<u64>>());
}

#[test]
fn cli_carries_the_chosen_command() {
    let cli = multi_thread_rust::cli::Cli {
        command: multi_thread_rust::cli::Commands::ThreadPool { threads: 4, num_tasks: 10 },
    };
    match cli.command {
        multi_thread_rust::cli::Commands::ThreadPool { threads, num_tasks } => {
            assert_eq!(threads, 4);
            assert_eq!(num_tasks, 10);
        }
        _ => panic!("wrong command"),
    }
}
