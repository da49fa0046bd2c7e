use liberty_core::security::wipe::{wipe_next, wipe_start, WipeAction};

fn actions(exists: bool, len: u64) -> Vec<WipeAction> {
    let (mut plan, mut a) = wipe_start(exists, len);
    let mut out = vec![a];
    while a != WipeAction::Done {
        let n = wipe_next(plan);
        plan = n.0;
        a = n.1;
        out.push(a);
    }
    out
}

#[test]
fn wipe_missing_and_empty_files() {
    assert_eq!(actions(false, 0), vec![WipeAction::Done]);
    assert_eq!(actions(true, 0), vec![WipeAction::Remove, WipeAction::Done]);
}

#[test]
fn wipe_small_file() {
    let mut expected = Vec::new();
    for _ in 0..3 {
        expected.extend([WipeAction::Rewind, WipeAction::WriteRandom(10), WipeAction::Sync]);
    }
    expected.extend([WipeAction::Rewind, WipeAction::WriteZeros(10), WipeAction::Sync, WipeAction::Remove, WipeAction::Done]);
    assert_eq!(actions(true, 10), expected);
}

#[test]
fn wipe_large_file_in_mib_chunks() {
    let mib = 1048576u64;
    let acts = actions(true, 2 * mib + 5);
    let randoms: Vec<u64> = acts.iter().filter_map(|a| if let WipeAction::WriteRandom(n) = a { Some(*n) } else { None }).collect();
    let zeros: Vec<u64> = acts.iter().filter_map(|a| if let WipeAction::WriteZeros(n) = a { Some(*n) } else { None }).collect();
    assert_eq!(randoms, vec![mib, mib, 5, mib, mib, 5, mib, mib, 5]);
    assert_eq!(zeros, vec![mib, mib, 5]);
    assert_eq!(acts.iter().filter(|a| **a == WipeAction::Sync).count(), 4);
    assert_eq!(acts[acts.len() - 2], WipeAction::Remove);
}
