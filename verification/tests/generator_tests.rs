use transfer_stats::generator::{
    ConfigurationError, DefaultTransferGenerator, TransferGenConfig, TransferGenerator,
};

#[test]
fn test_generate_transfers() {
    let generator = DefaultTransferGenerator::default();
    let transfers = generator.generate(10).unwrap();

    assert_eq!(transfers.len(), 10);
    for t in transfers {
        assert!(t.amount >= generator.config.min_amount);
        assert!(t.amount <= generator.config.max_amount);
        assert!(t.from.starts_with("0x"));
        assert!(t.to.starts_with("0x"));
    }
}

#[test]
fn test_invalid_config() {
    let generator = DefaultTransferGenerator {
        config: TransferGenConfig { min_amount: 100, max_amount: 10, ..Default::default() },
    };
    assert!(generator.generate(1).is_err());
}

#[test]
fn test_invalid_amount_range_error_kind() {
    let generator = DefaultTransferGenerator {
        config: TransferGenConfig { min_amount: 10, max_amount: 10, ..Default::default() },
    };
    assert_eq!(generator.generate(5).unwrap_err(), ConfigurationError::InvalidAmountRange);
}

#[test]
fn test_invalid_price_range_error_kind() {
    let generator = DefaultTransferGenerator {
        config: TransferGenConfig { min_price: 20, max_price: 20, ..Default::default() },
    };
    assert_eq!(generator.generate(5).unwrap_err(), ConfigurationError::InvalidPriceRange);
}

#[test]
fn test_amount_range_checked_before_price_range() {
    let generator = DefaultTransferGenerator {
        config: TransferGenConfig {
            min_amount: 100,
            max_amount: 10,
            min_price: 20,
            max_price: 1,
            max_age_secs: 60,
        },
    };
    assert_eq!(generator.generate(1).unwrap_err(), ConfigurationError::InvalidAmountRange);
}

#[test]
fn test_generate_through_trait() {
    let generator = DefaultTransferGenerator::default();
    let transfers = TransferGenerator::generate(&generator, 3).unwrap();
    assert_eq!(transfers.len(), 3);
}

#[test]
fn test_generate_zero_count() {
    let generator = DefaultTransferGenerator::default();
    assert_eq!(generator.generate(0).unwrap().len(), 0);
}

#[test]
fn test_generated_addresses_have_twelve_chars() {
    let generator = DefaultTransferGenerator::default();
    let transfers = generator.generate(4).unwrap();
    for t in transfers {
        assert_eq!(t.from.len(), 12);
        assert_eq!(t.to.len(), 12);
    }
}
