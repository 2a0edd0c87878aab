use randgen::error::{ConfigIssue, GenError};
use randgen::plan::{item_capacity, plan_chunks, plan_lines, text_capacity, ChunkPlan};

fn total_of(plan: &ChunkPlan) -> usize {
    plan.chunks.iter().sum::<usize>() + plan.leftover
}

#[test]
fn hundred_bytes_four_workers_in_batches() {
    let plan = plan_chunks(100, 4, 8);
    assert_eq!(plan.chunks, vec![24, 24, 24, 24]);
    assert_eq!(plan.leftover, 4);
}

#[test]
fn extra_groups_go_to_the_first_workers() {
    let plan = plan_chunks(10, 4, 2);
    assert_eq!(plan.chunks, vec![4, 2, 2, 2]);
    assert_eq!(plan.leftover, 0);
    let plan = plan_chunks(123, 4, 8);
    assert_eq!(plan.chunks, vec![32, 32, 32, 24]);
    assert_eq!(plan.leftover, 3);
}

#[test]
fn unit_of_one_leaves_nothing_over() {
    let plan = plan_chunks(7, 3, 1);
    assert_eq!(plan.chunks, vec![3, 2, 2]);
    assert_eq!(plan.leftover, 0);
}

#[test]
fn total_below_one_group_is_all_leftover() {
    let plan = plan_chunks(3, 2, 4);
    assert_eq!(plan.chunks, vec![0, 0]);
    assert_eq!(plan.leftover, 3);
}

#[test]
fn nothing_to_plan() {
    let plan = plan_chunks(0, 5, 8);
    assert_eq!(plan.chunks, vec![0, 0, 0, 0, 0]);
    assert_eq!(plan.leftover, 0);
}

#[test]
fn chunks_and_leftover_add_up() {
    for total in 0..200usize {
        for workers in 1..7usize {
            for unit in [1usize, 2, 4, 8] {
                let plan = plan_chunks(total, workers, unit);
                assert_eq!(plan.chunks.len(), workers);
                assert_eq!(total_of(&plan), total);
                assert!(plan.leftover < unit);
                for chunk in &plan.chunks {
                    assert_eq!(chunk % unit, 0);
                }
            }
        }
    }
}

#[test]
fn lines_keep_one_item_back() {
    let plan = plan_lines(4, 2);
    assert_eq!(plan.chunks, vec![1, 2]);
    assert_eq!(plan.leftover, 1);
    let plan = plan_lines(5, 2);
    assert_eq!(plan.chunks, vec![2, 2]);
    assert_eq!(plan.leftover, 1);
}

#[test]
fn one_line_is_the_closing_item() {
    let plan = plan_lines(1, 4);
    assert_eq!(plan.chunks, vec![0, 0, 0, 0]);
    assert_eq!(plan.leftover, 1);
}

#[test]
fn lines_add_up() {
    for total in 1..100usize {
        for workers in 1..6usize {
            let plan = plan_lines(total, workers);
            assert_eq!(total_of(&plan), total);
        }
    }
}

#[test]
fn text_buffer_is_divided_and_rounded_down() {
    assert_eq!(text_capacity(None, 4, 8), Ok(None));
    assert_eq!(text_capacity(Some(100), 4, 8), Ok(Some(24)));
    assert_eq!(text_capacity(Some(32), 4, 8), Ok(Some(8)));
    assert_eq!(text_capacity(Some(7), 1, 2), Ok(Some(6)));
}

#[test]
fn text_buffer_below_one_group_is_refused() {
    assert_eq!(
        text_capacity(Some(31), 4, 8),
        Err(GenError::ConfigError(ConfigIssue::BufferTooSmall { workers: 4, unit: 8 }))
    );
    assert_eq!(
        text_capacity(Some(0), 1, 1),
        Err(GenError::ConfigError(ConfigIssue::BufferTooSmall { workers: 1, unit: 1 }))
    );
}

#[test]
fn item_buffer_follows_the_chunk() {
    assert_eq!(item_capacity(Some(10), 500, 4), Ok(10));
    assert_eq!(item_capacity(None, 500, 4), Ok(500));
    assert_eq!(item_capacity(None, 1000, 4), Ok(1000));
    assert_eq!(item_capacity(None, 1001, 4), Ok(1001));
    assert_eq!(item_capacity(None, 1500, 2000), Ok(1500));
    assert_eq!(item_capacity(None, 0, 4), Ok(0));
}

#[test]
fn a_named_item_buffer_of_nothing_is_refused() {
    let refused = Err(GenError::ConfigError(ConfigIssue::BufferTooSmall { workers: 2000, unit: 1 }));
    assert_eq!(item_capacity(Some(0), 5, 2000), refused);
    assert_eq!(item_capacity(Some(0), 0, 2000), refused);
}

#[test]
fn a_group_beyond_the_range_of_the_machine_leaves_all_to_the_extras() {
    let plan = plan_chunks(10, 3, usize::MAX);
    assert_eq!(plan.chunks, vec![0, 0, 0]);
    assert_eq!(plan.leftover, 10);
    let plan = plan_chunks(usize::MAX, 2, usize::MAX);
    assert_eq!(plan.chunks, vec![usize::MAX, 0]);
    assert_eq!(plan.leftover, 0);
    let half = usize::MAX / 2 + 1;
    let plan = plan_chunks(usize::MAX, 4, half);
    assert_eq!(plan.chunks, vec![half, 0, 0, 0]);
    assert_eq!(plan.leftover, half - 1);
}
