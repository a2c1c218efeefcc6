use transfer_stats::generator::DefaultTransferGenerator;
use transfer_stats::model::{Transfer, UserStats};
use transfer_stats::pipeline::{compute, make_transaction};
use transfer_stats::storage::{MockStorage, Storage};

/// Amounts and prices below are fixed-point in tenths: 15 reads 1.5 units.
fn stats_for<'a>(snapshot: &'a [UserStats], address: &str) -> &'a UserStats {
    snapshot.iter().find(|s| s.address == address).unwrap()
}

#[test]
fn test_make_transaction() {
    let mut storage = MockStorage::default();
    let transfer = Transfer {
        from: "0xSender".to_string(),
        to: "0xReceiver".to_string(),
        amount: 1000,
        usd_price: 15,
        ts: 1234567890,
    };

    make_transaction(&mut storage, &transfer).unwrap();

    assert_eq!(storage.transfers.len(), 1);
    assert_eq!(storage.transfers[0].amount, 1000);

    let sender_stats = storage.get_user_stats("0xSender").unwrap().unwrap();
    assert_eq!(sender_stats.total_volume, 1000);
    assert_eq!(sender_stats.avg_sell_price, 15);

    let receiver_stats = storage.get_user_stats("0xReceiver").unwrap().unwrap();
    assert_eq!(receiver_stats.total_volume, 1000);
    assert_eq!(receiver_stats.avg_buy_price, 15);
}

#[test]
fn test_avg_buy_price_calculation() {
    let mut storage = MockStorage::default();
    let transfer = Transfer {
        from: "0xSender".to_string(),
        to: "0xReceiver".to_string(),
        amount: 1000,
        usd_price: 15,
        ts: 1234567890,
    };

    make_transaction(&mut storage, &transfer).unwrap();
    let receiver_stats = storage.get_user_stats("0xReceiver").unwrap().unwrap();

    assert_eq!(receiver_stats.avg_buy_price, 15);
}

#[test]
fn test_multiple_transfers_avg() {
    let mut storage = MockStorage::default();
    let transfers = vec![
        Transfer {
            from: "0xSender1".to_string(),
            to: "0xReceiver".to_string(),
            amount: 1000,
            usd_price: 10,
            ts: 1,
        },
        Transfer {
            from: "0xSender2".to_string(),
            to: "0xReceiver".to_string(),
            amount: 1000,
            usd_price: 30,
            ts: 2,
        },
    ];

    for transfer in &transfers {
        make_transaction(&mut storage, transfer).unwrap();
    }

    let receiver_stats = storage.get_user_stats("0xReceiver").unwrap().unwrap();
    assert_eq!(receiver_stats.avg_buy_price, 20);
}

#[test]
fn test_receiver_avg_buy_price_accumulation() {
    let mut storage = MockStorage::default();
    let receiver_address = "0xReceiver".to_string();

    let transfer1 = Transfer {
        from: "0xSender1".to_string(),
        to: receiver_address.clone(),
        amount: 1000,
        usd_price: 10,
        ts: 1,
    };
    let transfer2 = Transfer {
        from: "0xSender2".to_string(),
        to: receiver_address.clone(),
        amount: 1000,
        usd_price: 30,
        ts: 2,
    };

    make_transaction(&mut storage, &transfer1).unwrap();
    make_transaction(&mut storage, &transfer2).unwrap();

    let stats = storage.get_user_stats(&receiver_address).unwrap().unwrap();

    assert_eq!(stats.avg_buy_price, 20);
    assert_eq!(stats.total_volume, 2000);
    assert_eq!(stats.avg_sell_price, 0);
}

#[test]
fn test_transfer_processing() {
    let generator = DefaultTransferGenerator::default();
    let transfers = generator.generate(1).unwrap();
    let test_transfer = &transfers[0];

    let mut storage = MockStorage::default();
    make_transaction(&mut storage, test_transfer).unwrap();

    assert_eq!(storage.transfers.len(), 1);

    let stored_transfer = &storage.transfers[0];
    assert_eq!(stored_transfer.ts, test_transfer.ts);
    assert!(stored_transfer.from.starts_with("0x") && stored_transfer.from.len() == 12);
    assert!(stored_transfer.to.starts_with("0x") && stored_transfer.to.len() == 12);
    assert!(
        stored_transfer.amount >= generator.config.min_amount
            && stored_transfer.amount <= generator.config.max_amount
    );
    assert!(
        stored_transfer.usd_price >= generator.config.min_price
            && stored_transfer.usd_price <= generator.config.max_price
    );

    let from_stats = storage.get_user_stats(&test_transfer.from).unwrap().unwrap();
    let to_stats = storage.get_user_stats(&test_transfer.to).unwrap().unwrap();

    assert_eq!(from_stats.total_volume, test_transfer.amount as u128);
    assert_eq!(to_stats.total_volume, test_transfer.amount as u128);
    assert_eq!(from_stats.avg_sell_price, test_transfer.usd_price as u64);
    assert_eq!(to_stats.avg_buy_price, test_transfer.usd_price as u64);
    assert_eq!(from_stats.avg_buy_price, 0);
    assert_eq!(to_stats.avg_sell_price, 0);
}

#[test]
fn test_incremental_self_transfer_applies_both_sides() {
    let mut storage = MockStorage::default();
    let transfer = Transfer {
        from: "0xBoth".to_string(),
        to: "0xBoth".to_string(),
        amount: 500,
        usd_price: 12,
        ts: 7,
    };

    make_transaction(&mut storage, &transfer).unwrap();

    let stats = storage.get_user_stats("0xBoth").unwrap().unwrap();
    assert_eq!(stats.total_volume, 1000);
    assert_eq!(stats.avg_sell_price, 12);
    assert_eq!(stats.avg_buy_price, 12);
    assert_eq!(stats.max_balance, 500);
}

#[test]
fn test_incremental_max_balance_keeps_peak_amount() {
    let mut storage = MockStorage::default();
    let t1 = Transfer {
        from: "0xA".to_string(),
        to: "0xB".to_string(),
        amount: 700,
        usd_price: 10,
        ts: 1,
    };
    let t2 = Transfer {
        from: "0xA".to_string(),
        to: "0xB".to_string(),
        amount: 300,
        usd_price: 10,
        ts: 2,
    };

    make_transaction(&mut storage, &t1).unwrap();
    make_transaction(&mut storage, &t2).unwrap();

    let a = storage.get_user_stats("0xA").unwrap().unwrap();
    let b = storage.get_user_stats("0xB").unwrap().unwrap();
    assert_eq!(a.max_balance, 700);
    assert_eq!(b.max_balance, 700);
    assert_eq!(a.total_volume, 1000);
}

#[test]
fn test_compute_empty_input_gives_empty_snapshot() {
    let snapshot = compute(&vec![]);
    assert!(snapshot.is_empty());
}

#[test]
fn test_compute_total_volume_sums_both_roles() {
    let transfers = vec![
        Transfer {
            from: "0xA".to_string(),
            to: "0xB".to_string(),
            amount: 1000,
            usd_price: 10,
            ts: 1,
        },
        Transfer {
            from: "0xB".to_string(),
            to: "0xC".to_string(),
            amount: 400,
            usd_price: 20,
            ts: 2,
        },
    ];

    let snapshot = compute(&transfers);
    assert_eq!(snapshot.len(), 3);
    assert_eq!(stats_for(&snapshot, "0xA").total_volume, 1000);
    assert_eq!(stats_for(&snapshot, "0xB").total_volume, 1400);
    assert_eq!(stats_for(&snapshot, "0xC").total_volume, 400);
}

#[test]
fn test_compute_volume_weighted_average() {
    // buys of 100 units at 1.0 and 300 units at 3.0, in tenths:
    // (10*1000 + 30*3000) / (1000 + 3000) = 100000 / 4000 = 25, i.e. 2.5
    let transfers = vec![
        Transfer {
            from: "0xS1".to_string(),
            to: "0xR".to_string(),
            amount: 1000,
            usd_price: 10,
            ts: 1,
        },
        Transfer {
            from: "0xS2".to_string(),
            to: "0xR".to_string(),
            amount: 3000,
            usd_price: 30,
            ts: 2,
        },
    ];

    let snapshot = compute(&transfers);
    let r = stats_for(&snapshot, "0xR");
    assert_eq!(r.avg_buy_price, 25);
    assert_eq!(r.avg_sell_price, 0);
    assert_eq!(stats_for(&snapshot, "0xS1").avg_sell_price, 10);
    assert_eq!(stats_for(&snapshot, "0xS1").avg_buy_price, 0);
}

#[test]
fn test_compute_order_independent() {
    let t1 = Transfer {
        from: "0xA".to_string(),
        to: "0xB".to_string(),
        amount: 1000,
        usd_price: 10,
        ts: 1,
    };
    let t2 = Transfer {
        from: "0xB".to_string(),
        to: "0xA".to_string(),
        amount: 500,
        usd_price: 30,
        ts: 2,
    };
    let t3 = Transfer {
        from: "0xC".to_string(),
        to: "0xB".to_string(),
        amount: 200,
        usd_price: 20,
        ts: 3,
    };

    let forward = compute(&vec![t1.clone(), t2.clone(), t3.clone()]);
    let backward = compute(&vec![t3, t1, t2]);

    for address in ["0xA", "0xB", "0xC"] {
        let f = stats_for(&forward, address);
        let b = stats_for(&backward, address);
        assert_eq!(f.total_volume, b.total_volume);
        assert_eq!(f.avg_buy_price, b.avg_buy_price);
        assert_eq!(f.avg_sell_price, b.avg_sell_price);
    }
}

#[test]
fn test_compute_never_sender_has_zero_sell_average() {
    let transfers = vec![Transfer {
        from: "0xSeller".to_string(),
        to: "0xBuyer".to_string(),
        amount: 100,
        usd_price: 17,
        ts: 5,
    }];

    let snapshot = compute(&transfers);
    assert_eq!(stats_for(&snapshot, "0xBuyer").avg_sell_price, 0);
    assert_eq!(stats_for(&snapshot, "0xSeller").avg_buy_price, 0);
}

#[test]
fn test_compute_zero_amounts_give_zero_average() {
    let transfers = vec![Transfer {
        from: "0xA".to_string(),
        to: "0xB".to_string(),
        amount: 0,
        usd_price: 15,
        ts: 1,
    }];

    let snapshot = compute(&transfers);
    let b = stats_for(&snapshot, "0xB");
    assert_eq!(b.total_volume, 0);
    assert_eq!(b.avg_buy_price, 0);
    assert_eq!(b.max_balance, 0);
}

#[test]
fn test_compute_max_balance_is_peak_transfer_amount() {
    let transfers = vec![
        Transfer {
            from: "0xA".to_string(),
            to: "0xB".to_string(),
            amount: 300,
            usd_price: 10,
            ts: 1,
        },
        Transfer {
            from: "0xB".to_string(),
            to: "0xA".to_string(),
            amount: 900,
            usd_price: 10,
            ts: 2,
        },
        Transfer {
            from: "0xA".to_string(),
            to: "0xB".to_string(),
            amount: 100,
            usd_price: 10,
            ts: 3,
        },
    ];

    let snapshot = compute(&transfers);
    assert_eq!(stats_for(&snapshot, "0xA").max_balance, 900);
    assert_eq!(stats_for(&snapshot, "0xB").max_balance, 900);
}

#[test]
fn test_compute_self_transfer_counts_both_sides() {
    let transfers = vec![Transfer {
        from: "0xLoop".to_string(),
        to: "0xLoop".to_string(),
        amount: 250,
        usd_price: 8,
        ts: 4,
    }];

    let snapshot = compute(&transfers);
    assert_eq!(snapshot.len(), 1);
    let s = stats_for(&snapshot, "0xLoop");
    assert_eq!(s.total_volume, 500);
    assert_eq!(s.avg_buy_price, 8);
    assert_eq!(s.avg_sell_price, 8);
}

#[test]
fn test_incremental_order_dependence_of_pairwise_average() {
    // prices 1.0, 2.0, 6.0 in one order and reversed: the pairwise rule is
    // order-dependent on purpose, unlike the batch average.
    let prices_forward = [10u32, 20, 60];
    let prices_backward = [60u32, 20, 10];

    let run = |prices: &[u32]| -> u64 {
        let mut storage = MockStorage::default();
        for (k, p) in prices.iter().enumerate() {
            let t = Transfer {
                from: format!("0xS{}", k),
                to: "0xR".to_string(),
                amount: 100,
                usd_price: *p,
                ts: k as u64,
            };
            make_transaction(&mut storage, &t).unwrap();
        }
        storage.get_user_stats("0xR").unwrap().unwrap().avg_buy_price
    };

    // ((10, 20) -> 15, then 60) -> 37; ((60, 20) -> 40, then 10) -> 25
    assert_eq!(run(&prices_forward), 37);
    assert_eq!(run(&prices_backward), 25);
}
