use huckli::{FileInfo, PublicKeyBinary, S3Args, SupportedFileTypes};

#[test]
fn file_kinds_name_their_bucket_and_prefix() {
    assert_eq!(SupportedFileTypes::CoverageObject.prefix(), "coverage_object");
    assert_eq!(SupportedFileTypes::CoverageObject.bucket(), "helium-mainnet-mobile-verified");
    assert_eq!(SupportedFileTypes::DataTransferBurn.bucket(), "helium-mainnet-mobile-packet-verifier");
    assert_eq!(SupportedFileTypes::DataTransferBurn.prefix(), "valid_data_transfer_session");
    assert_eq!(SupportedFileTypes::RadioUsageStats.bucket(), "helium-mainnet-mobile-ingest");
    assert_eq!(SupportedFileTypes::MobileRewards.prefix(), "mobile_network_reward_shares_v1");
}

#[test]
fn file_kind_prefixes_are_valid_key_prefixes() {
    let all = [
        SupportedFileTypes::CoverageObject,
        SupportedFileTypes::DataTransferBurn,
        SupportedFileTypes::DataTransferIngest,
        SupportedFileTypes::MobileRewards,
        SupportedFileTypes::MobileRewardManifest,
        SupportedFileTypes::RadioUsageStats,
        SupportedFileTypes::SubscriberMappingActivityIngest,
        SupportedFileTypes::ValidatedHeartbeat,
        SupportedFileTypes::VerifiedCdrVerification,
        SupportedFileTypes::VerifiedDataTransfer,
        SupportedFileTypes::VerifiedInvalidatedRadioThreshold,
        SupportedFileTypes::VerifiedSubscriberMappingActivity,
        SupportedFileTypes::VerifiedRadioThreshold,
        SupportedFileTypes::VerifiedUniqueConnections,
    ];
    for kind in all {
        let key = FileInfo::start_after_key(kind.prefix(), 1);
        assert_eq!(FileInfo::parse(&key).unwrap().prefix, kind.prefix());
    }
}

#[test]
fn s3_args_overrides_win() {
    let plain = S3Args::new();
    assert_eq!(plain.region, "us-west-2");
    assert_eq!(plain.bucket_or("b"), "b");
    assert_eq!(plain.prefix_or("p"), "p");
    let set = S3Args {
        prefix: Some("other".to_string()),
        bucket: Some("mine".to_string()),
        region: "eu-west-1".to_string(),
        endpoint: None,
    };
    assert_eq!(set.bucket_or("b"), "mine");
    assert_eq!(set.prefix_or("p"), "other");
}

#[test]
fn public_key_text_is_versioned_base58_check() {
    let key = PublicKeyBinary::from(vec![1u8, 2, 3]);
    assert_eq!(key.to_string(), "13DV5niCGP");
    assert_eq!(PublicKeyBinary::from(vec![]).to_string(), "1Wh4bh");
}
