use godl_crank::chain::Var;
use godl_crank::rpc::{
    decode_var, get_clock, get_miners_participating, get_program_accounts, get_var, keep_readable,
    program_accounts_failed_text, var_of_fields, BytesAt, MalformedClock, MalformedVar, VarFields,
};

/// The data of an entropy variable.
fn var_data() -> Vec<u8> {
    let mut data = vec![0; 240];
    for at in 144..176 {
        data[at] = 7;
    }
    data[208] = 3;
    data[233] = 1;
    data
}

/// What is read from `data` at eight places in memory next to each other, one
/// of which is a multiple of eight.
fn read_at_every_place(data: &[u8]) -> Vec<Result<Var, MalformedVar>> {
    let mut memory = vec![0; data.len() + 8];
    let mut found = Vec::new();
    for at in 0..8 {
        memory[at..at + data.len()].copy_from_slice(data);
        found.push(get_var(&memory[at..at + data.len()]));
    }
    found
}

#[test]
fn type_filter_comes_first() {
    let narrowing = BytesAt { offset: 8, bytes: vec![1, 2] };
    assert_eq!(
        get_program_accounts(105, vec![narrowing]),
        vec![
            BytesAt { offset: 0, bytes: vec![105] },
            BytesAt { offset: 8, bytes: vec![1, 2] },
        ]
    );
    assert_eq!(
        get_program_accounts(3, vec![]),
        vec![BytesAt { offset: 0, bytes: vec![3] }]
    );
}

#[test]
fn participants_are_found_by_their_round() {
    assert_eq!(
        get_miners_participating(103, 258),
        vec![
            BytesAt { offset: 0, bytes: vec![103] },
            BytesAt { offset: 544, bytes: vec![2, 1, 0, 0, 0, 0, 0, 0] },
        ]
    );
}

#[test]
fn unreadable_accounts_are_dropped() {
    let accounts = vec![([1; 32], Some(10)), ([2; 32], None), ([3; 32], Some(30))];
    assert_eq!(keep_readable(accounts), vec![([1; 32], 10), ([3; 32], 30)]);
    assert_eq!(keep_readable::<u64>(vec![]), vec![]);
}

#[test]
fn failed_request_is_explained() {
    assert_eq!(
        program_accounts_failed_text("timed out"),
        "getProgramAccounts failed (does your RPC support it?): timed out"
    );
}

#[test]
fn clock_starts_with_the_slot() {
    let mut data = vec![0; 40];
    data[0] = 2;
    data[1] = 1;
    data[8] = 99;
    assert_eq!(get_clock(&data), Ok(258));
    data.push(5);
    assert_eq!(get_clock(&data), Ok(258));
}

#[test]
fn short_clock_is_malformed() {
    assert_eq!(get_clock(&[0; 39]), Err(MalformedClock));
    assert_eq!(get_clock(&[]), Err(MalformedClock));
}

#[test]
fn var_is_read_from_its_account() {
    let found = read_at_every_place(&var_data());
    let var = Var { slot_hash: [7; 32], samples: 3, end_at: 256 };
    assert!(found.contains(&Ok(var)));
    assert!(found.iter().all(|one| *one == Ok(var) || *one == Err(MalformedVar)));
}

#[test]
fn other_accounts_are_no_var() {
    let nothing = vec![Err(MalformedVar); 8];
    let mut data = var_data();
    assert_eq!(read_at_every_place(&data[..239]), nothing);
    data.push(0);
    assert_eq!(read_at_every_place(&data), nothing);
    data.pop();
    data[0] = 1;
    assert_eq!(read_at_every_place(&data), nothing);
    assert_eq!(get_var(&[1]), Err(MalformedVar));
}

#[test]
fn var_numbers_are_little_endian() {
    let fields = VarFields {
        slot_hash: [9; 32],
        samples: [1, 1, 0, 0, 0, 0, 0, 0],
        end_at: [0, 0, 0, 0, 0, 0, 0, 1],
    };
    assert_eq!(
        decode_var(&fields),
        Var { slot_hash: [9; 32], samples: 257, end_at: 1 << 56 }
    );
}

#[test]
fn found_fields_make_a_var() {
    let fields = VarFields {
        slot_hash: [9; 32],
        samples: [1, 1, 0, 0, 0, 0, 0, 0],
        end_at: [0, 0, 0, 0, 0, 0, 0, 1],
    };
    assert_eq!(
        var_of_fields(Some(fields)),
        Ok(Var { slot_hash: [9; 32], samples: 257, end_at: 1 << 56 })
    );
    assert_eq!(var_of_fields(None), Err(MalformedVar));
}
