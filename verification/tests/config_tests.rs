use da_coordinator::{
    ConfigError, DAConfig, DAServerCelestiaConfig, DAServerSubmitStrategy, InternalDAServerConfig,
    InternalDAServerConfigType, RoochOpt,
};

#[test]
fn test_adjust_submit_strategy_default_to_all() {
    let mut config = InternalDAServerConfig {
        submit_strategy: None,
        servers: vec![], // Empty for this test
    };
    config.adjust_submit_strategy();
    assert_eq!(config.submit_strategy, Some(DAServerSubmitStrategy::All));
}

#[test]
fn test_adjust_submit_strategy_number_too_low() {
    let mut config = InternalDAServerConfig {
        submit_strategy: Some(DAServerSubmitStrategy::Number(0)),
        servers: vec![
            InternalDAServerConfigType::Celestia(DAServerCelestiaConfig::default());
            2
        ], // Two servers for this test
    };
    config.adjust_submit_strategy();
    assert_eq!(
        config.submit_strategy,
        Some(DAServerSubmitStrategy::Number(1))
    );
}

#[test]
fn test_adjust_submit_strategy_number_too_high() {
    let mut config = InternalDAServerConfig {
        submit_strategy: Some(DAServerSubmitStrategy::Number(5)),
        servers: vec![
            InternalDAServerConfigType::Celestia(DAServerCelestiaConfig::default());
            3
        ], // Three servers for this test
    };
    config.adjust_submit_strategy();
    assert_eq!(
        config.submit_strategy,
        Some(DAServerSubmitStrategy::Number(3))
    );
}

#[test]
fn test_adjust_submit_strategy_number_within_range() {
    let mut config = InternalDAServerConfig {
        submit_strategy: Some(DAServerSubmitStrategy::Number(2)),
        servers: vec![
            InternalDAServerConfigType::Celestia(DAServerCelestiaConfig::default());
            4
        ], // Four servers for this test
    };
    config.adjust_submit_strategy();
    assert_eq!(
        config.submit_strategy,
        Some(DAServerSubmitStrategy::Number(2))
    );
}

#[test]
fn test_calculate_submit_threshold_all() {
    let mut config = InternalDAServerConfig {
        submit_strategy: Some(DAServerSubmitStrategy::All),
        servers: vec![
            InternalDAServerConfigType::Celestia(DAServerCelestiaConfig::default());
            3
        ],
    };
    assert_eq!(config.calculate_submit_threshold(), 3);
}

#[test]
fn test_calculate_submit_threshold_quorum() {
    for (n, expected) in [(1usize, 1usize), (2, 2), (3, 2), (4, 3), (5, 3)] {
        let mut config = InternalDAServerConfig {
            submit_strategy: Some(DAServerSubmitStrategy::Quorum),
            servers: vec![
                InternalDAServerConfigType::Celestia(DAServerCelestiaConfig::default());
                n
            ],
        };
        assert_eq!(config.calculate_submit_threshold(), expected);
    }
}

#[test]
fn test_calculate_submit_threshold_defaults_to_all() {
    let mut config = InternalDAServerConfig {
        submit_strategy: None,
        servers: vec![
            InternalDAServerConfigType::Celestia(DAServerCelestiaConfig::default());
            2
        ],
    };
    assert_eq!(config.calculate_submit_threshold(), 2);
    assert_eq!(config.submit_strategy, Some(DAServerSubmitStrategy::All));
}

#[test]
fn test_celestia_defaults_fill_unset_segment_size() {
    let config = DAServerCelestiaConfig {
        namespace: Some("ns".to_string()),
        conn: Some("conn".to_string()),
        auth_token: None,
        max_segment_size: None,
    };
    let filled = config.new_with_defaults().unwrap();
    assert_eq!(filled.max_segment_size, Some(1024 * 1024));
    assert_eq!(filled.namespace, Some("ns".to_string()));
    assert_eq!(filled.conn, Some("conn".to_string()));
    assert_eq!(filled.auth_token, None);
}

#[test]
fn test_celestia_defaults_keep_set_segment_size() {
    let config = DAServerCelestiaConfig {
        namespace: None,
        conn: None,
        auth_token: None,
        max_segment_size: Some(2048),
    };
    let filled = config.new_with_defaults().unwrap();
    assert_eq!(filled.max_segment_size, Some(2048));
}

#[test]
fn test_celestia_defaults_reject_zero_limit() {
    let config = DAServerCelestiaConfig {
        namespace: None,
        conn: None,
        auth_token: None,
        max_segment_size: Some(0),
    };
    assert_eq!(
        config.new_with_defaults(),
        Err(ConfigError::InvalidSegmentLimit)
    );
}

#[test]
fn test_celestia_defaults_idempotent() {
    let config = DAServerCelestiaConfig {
        namespace: None,
        conn: None,
        auth_token: None,
        max_segment_size: None,
    };
    let once = config.new_with_defaults().unwrap();
    let twice = once.clone().new_with_defaults().unwrap();
    assert_eq!(twice, once);
    assert!(once.max_segment_size.unwrap() > 0);
}

#[test]
fn test_validate_rejects_empty_backend_set() {
    let config = InternalDAServerConfig {
        submit_strategy: Some(DAServerSubmitStrategy::Quorum),
        servers: vec![],
    };
    assert_eq!(config.validate(), Err(ConfigError::NoBackends));
}

#[test]
fn test_validate_rejects_zero_segment_limit() {
    let config = InternalDAServerConfig {
        submit_strategy: Some(DAServerSubmitStrategy::All),
        servers: vec![InternalDAServerConfigType::Celestia(DAServerCelestiaConfig {
            namespace: None,
            conn: None,
            auth_token: None,
            max_segment_size: Some(0),
        })],
    };
    assert_eq!(config.validate(), Err(ConfigError::InvalidSegmentLimit));

    let ok_config = InternalDAServerConfig {
        submit_strategy: Some(DAServerSubmitStrategy::All),
        servers: vec![InternalDAServerConfigType::Celestia(
            DAServerCelestiaConfig::default(),
        )],
    };
    assert!(ok_config.validate().is_ok());
}

#[test]
fn test_merge_with_opt_replaces_config() {
    let mut config = DAConfig {
        internal_da_server: None,
    };
    let replacement = DAConfig {
        internal_da_server: Some(InternalDAServerConfig {
            submit_strategy: Some(DAServerSubmitStrategy::Quorum),
            servers: vec![InternalDAServerConfigType::Celestia(
                DAServerCelestiaConfig::default(),
            )],
        }),
    };
    let opt = RoochOpt {
        da: Some(replacement.clone()),
    };
    assert!(config.merge_with_opt(opt).is_ok());
    assert_eq!(config, replacement);
}

#[test]
fn test_merge_with_opt_keeps_config_without_da() {
    let original = DAConfig {
        internal_da_server: Some(InternalDAServerConfig {
            submit_strategy: None,
            servers: vec![],
        }),
    };
    let mut config = original.clone();
    assert!(config.merge_with_opt(RoochOpt { da: None }).is_ok());
    assert_eq!(config, original);
}
