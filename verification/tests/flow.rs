use ymir::flow::{accumulate_flow, compute_downstream};

fn slots(list: &[u32]) -> [Option<u32>; 6] {
    let mut s = [None; 6];
    for (k, &j) in list.iter().enumerate() {
        s[k] = Some(j);
    }
    s
}

#[test]
fn each_hex_drains_to_its_lowest_lower_neighbour() {
    // A row of five hexes; the ends are boundary outlets.
    let neighbors = vec![
        [Some(1), None, None, None, None, None],
        slots(&[0, 2, 3, 4, 0, 2]),
        slots(&[1, 3, 1, 3, 1, 3]),
        slots(&[2, 4, 1, 2, 4, 1]),
        [Some(3), None, None, None, None, None],
    ];
    let boundary = vec![true, false, false, false, true];
    let ranks = vec![0, 2, 3, 1, 1];
    let down = compute_downstream(&ranks, &neighbors, &boundary);
    assert_eq!(down, vec![None, Some(0), Some(3), None, None]);
}

#[test]
fn ties_go_to_the_smaller_index() {
    let neighbors = vec![
        slots(&[1, 2, 3, 4, 5, 6]),
        [None; 6],
        [None; 6],
        [None; 6],
        [None; 6],
        [None; 6],
        [None; 6],
    ];
    let boundary = vec![false, true, true, true, true, true, true];
    let ranks = vec![5, 4, 2, 2, 3, 2, 9];
    assert_eq!(compute_downstream(&ranks, &neighbors, &boundary)[0], Some(2));
    let ranks = vec![1, 4, 2, 2, 3, 2, 9];
    assert_eq!(compute_downstream(&ranks, &neighbors, &boundary)[0], None);
}

#[test]
fn flow_counts_every_hex_draining_through() {
    // 0 <- 1 <- 2, 3 -> 1, 4 is its own outlet.
    let ranks = vec![0, 1, 3, 2, 5];
    let down = vec![None, Some(0), Some(1), Some(1), None];
    let counts = accumulate_flow(&ranks, &down);
    assert_eq!(counts, vec![4, 3, 1, 1, 1]);
    // The outlets carry every hex.
    let outlets: u32 = (0..down.len()).filter(|&i| down[i].is_none()).map(|i| counts[i]).sum();
    assert_eq!(outlets, 5);
    assert!(accumulate_flow(&Vec::new(), &Vec::new()).is_empty());
}
