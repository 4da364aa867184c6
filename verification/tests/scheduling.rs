use dwmblocks::status::{StatusBlock, StatusError, StatusHandler};

#[test]
fn block_keeps_its_decoration_and_script() {
    let block = StatusBlock::new("| ".to_string(), " ".to_string(), "cpu".to_string());
    assert_eq!(block.prefix, "| ");
    assert_eq!(block.suffix, " ");
    assert_eq!(block.script_path, "cpu");
}

#[test]
fn add_block_hands_out_consecutive_indices() {
    let mut handler = StatusHandler::new("");
    assert_eq!(handler.add_block("", " ", 10, "wifi").unwrap(), 0);
    assert_eq!(handler.add_block("| ", " ", 5, "cpu").unwrap(), 1);
    assert_eq!(handler.add_block("| ", "", 30, "date").unwrap(), 2);
    assert_eq!(handler.len(), 3);
    assert_eq!(handler.script_path(1).as_str(), "cpu");
}

#[test]
fn zero_interval_is_invalid_config() {
    let mut handler = StatusHandler::new("");
    handler.add_block("", "", 7, "ok").unwrap();
    let rejected = handler.add_block("", "", 0, "bad");
    assert_eq!(rejected, Err(StatusError::InvalidConfig));
    assert_eq!(handler.len(), 1);
}

#[test]
fn every_block_is_due_at_start() {
    let mut handler = StatusHandler::new("");
    handler.add_block("", "", 10, "a").unwrap();
    handler.add_block("", "", 5, "b").unwrap();
    handler.add_block("", "", 20, "c").unwrap();
    assert_eq!(handler.get_blocks(0), vec![0usize, 1, 2]);
}

#[test]
fn due_means_elapsed_is_a_multiple_of_the_interval() {
    let mut handler = StatusHandler::new("");
    handler.add_block("", "", 5, "five").unwrap();
    handler.add_block("", "", 10, "ten").unwrap();
    assert_eq!(handler.get_blocks(10), vec![0usize, 1]);
    assert_eq!(handler.get_blocks(5), vec![0usize]);
    assert_eq!(handler.get_blocks(3), Vec::<usize>::new());
}

#[test]
fn slow_command_shifts_the_clock_phase() {
    let mut handler = StatusHandler::new("");
    handler.add_block("", "", 5, "slow").unwrap();
    // The command took 4 wall seconds: the clock advances by those 4 at once.
    let elapsed = handler.record_output(0, "out", 4, 0);
    assert_eq!(elapsed, 4);
    // One sleep later the shifted clock already reaches the next multiple.
    assert_eq!(handler.get_blocks(elapsed + 1), vec![0usize]);
    // Without the shift, 1 second after start, nothing would have been due.
    assert_eq!(handler.get_blocks(1), Vec::<usize>::new());
}

#[test]
fn two_block_run_republishes_once_per_update() {
    let mut handler = StatusHandler::new("-");
    handler.add_block("", " ", 2, "A").unwrap();
    handler.add_block("", "", 3, "B").unwrap();

    let outputs_at: fn(u64, usize) -> String = |elapsed, idx| format!("{}{}", ["a", "b"][idx], elapsed);

    let mut elapsed: u64 = 0;
    let mut published: Vec<String> = Vec::new();
    for _tick in 0..3 {
        for idx in handler.get_blocks(elapsed) {
            elapsed = handler.record_output(idx, &outputs_at(elapsed, idx), 0, elapsed);
            published.push(handler.update());
        }
        elapsed += 1;
    }

    // At elapsed 0 both blocks run and the line is published twice, in
    // registry order; at elapsed 1 neither is due; at elapsed 2 only the
    // first reruns and the second keeps its old text.
    assert_eq!(published, vec!["a0 -", "a0 -b0", "a2 -b0"]);
}
