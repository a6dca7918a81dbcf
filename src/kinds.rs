use vstd::prelude::*;

verus! {

/// The kinds of file that can be imported.
#[derive(Debug, Clone, Copy, PartialEq, Eq, Structural)]
pub enum SupportedFileTypes {
    CoverageObject,
    DataTransferBurn,
    DataTransferIngest,
    MobileRewards,
    MobileRewardManifest,
    RadioUsageStats,
    SubscriberMappingActivityIngest,
    ValidatedHeartbeat,
    VerifiedCdrVerification,
    VerifiedDataTransfer,
    VerifiedInvalidatedRadioThreshold,
    VerifiedSubscriberMappingActivity,
    VerifiedRadioThreshold,
    VerifiedUniqueConnections,
}

pub const INGEST_BUCKET: &'static str = "helium-mainnet-mobile-ingest";

pub const VERIFIED_BUCKET: &'static str = "helium-mainnet-mobile-verified";

pub const PACKET_VERIFIER_BUCKET: &'static str = "helium-mainnet-mobile-packet-verifier";

/// The bucket that holds the files of kind `t`.
pub open spec fn bucket_of(t: SupportedFileTypes) -> Seq<char> {
    match t {
        SupportedFileTypes::DataTransferIngest
        | SupportedFileTypes::RadioUsageStats
        | SupportedFileTypes::SubscriberMappingActivityIngest => INGEST_BUCKET@,
        SupportedFileTypes::DataTransferBurn
        | SupportedFileTypes::VerifiedDataTransfer => PACKET_VERIFIER_BUCKET@,
        _ => VERIFIED_BUCKET@,
    }
}

/// The key prefix of the files of kind `t`.
pub open spec fn prefix_of(t: SupportedFileTypes) -> Seq<char> {
    match t {
        SupportedFileTypes::CoverageObject => "coverage_object"@,
        SupportedFileTypes::DataTransferBurn => "valid_data_transfer_session"@,
        SupportedFileTypes::DataTransferIngest => "data_transfer_session_ingest_report"@,
        SupportedFileTypes::MobileRewards => "mobile_network_reward_shares_v1"@,
        SupportedFileTypes::MobileRewardManifest => "network_reward_manifest_v1"@,
        SupportedFileTypes::RadioUsageStats => "radio_usage_stats_ingest_report"@,
        SupportedFileTypes::SubscriberMappingActivityIngest => "subscriber_mapping_activity_ingest_report"@,
        SupportedFileTypes::ValidatedHeartbeat => "validated_heartbeat"@,
        SupportedFileTypes::VerifiedCdrVerification => "verified_service_provider_boosted_rewards_banned_radio"@,
        SupportedFileTypes::VerifiedDataTransfer => "verified_data_transfer_session"@,
        SupportedFileTypes::VerifiedInvalidatedRadioThreshold => "verified_invalidated_radio_threshold_report"@,
        SupportedFileTypes::VerifiedSubscriberMappingActivity => "verified_subscriber_mapping_activity_report"@,
        SupportedFileTypes::VerifiedRadioThreshold => "verified_radio_threshold_report"@,
        SupportedFileTypes::VerifiedUniqueConnections => "verified_unique_connections_report"@,
    }
}

impl SupportedFileTypes {
    /// The bucket that holds files of this kind.
    pub fn bucket(&self) -> (r: &'static str)
        ensures
            r@ == bucket_of(*self),
    {
        match self {
            SupportedFileTypes::DataTransferIngest
            | SupportedFileTypes::RadioUsageStats
            | SupportedFileTypes::SubscriberMappingActivityIngest => INGEST_BUCKET,
            SupportedFileTypes::DataTransferBurn
            | SupportedFileTypes::VerifiedDataTransfer => PACKET_VERIFIER_BUCKET,
            _ => VERIFIED_BUCKET,
        }
    }

    /// The key prefix of files of this kind.
    pub fn prefix(&self) -> (r: &'static str)
        ensures
            r@ == prefix_of(*self),
    {
        match self {
            SupportedFileTypes::CoverageObject => "coverage_object",
            SupportedFileTypes::DataTransferBurn => "valid_data_transfer_session",
            SupportedFileTypes::DataTransferIngest => "data_transfer_session_ingest_report",
            SupportedFileTypes::MobileRewards => "mobile_network_reward_shares_v1",
            SupportedFileTypes::MobileRewardManifest => "network_reward_manifest_v1",
            SupportedFileTypes::RadioUsageStats => "radio_usage_stats_ingest_report",
            SupportedFileTypes::SubscriberMappingActivityIngest => "subscriber_mapping_activity_ingest_report",
            SupportedFileTypes::ValidatedHeartbeat => "validated_heartbeat",
            SupportedFileTypes::VerifiedCdrVerification => "verified_service_provider_boosted_rewards_banned_radio",
            SupportedFileTypes::VerifiedDataTransfer => "verified_data_transfer_session",
            SupportedFileTypes::VerifiedInvalidatedRadioThreshold => "verified_invalidated_radio_threshold_report",
            SupportedFileTypes::VerifiedSubscriberMappingActivity => "verified_subscriber_mapping_activity_report",
            SupportedFileTypes::VerifiedRadioThreshold => "verified_radio_threshold_report",
            SupportedFileTypes::VerifiedUniqueConnections => "verified_unique_connections_report",
        }
    }
}

/// Where the object store is and what it serves: an optional bucket and
/// prefix that override those of the file kind, the region, and an optional
/// endpoint.
#[derive(Debug, Clone, PartialEq, Eq)]
pub struct S3Args {
    pub prefix: Option<String>,
    pub bucket: Option<String>,
    pub region: String,
    pub endpoint: Option<String>,
}

pub const DEFAULT_REGION: &'static str = "us-west-2";

impl S3Args {
    /// No override and no endpoint, in the default region.
    pub fn new() -> (r: S3Args)
        ensures
            r.prefix is None,
            r.bucket is None,
            r.region@ == DEFAULT_REGION@,
            r.endpoint is None,
    {
        S3Args { prefix: None, bucket: None, region: String::from_str(DEFAULT_REGION), endpoint: None }
    }

    /// The bucket to list and fetch from: the override if set, else `default`.
    pub fn bucket_or(&self, default: &str) -> (r: String)
        ensures
            r@ == match self.bucket {
                Some(b) => b@,
                None => default@,
            },
    {
        match &self.bucket {
            Some(b) => b.clone(),
            None => String::from_str(default),
        }
    }

    /// The prefix to list: the override if set, else `default`.
    pub fn prefix_or(&self, default: &str) -> (r: String)
        ensures
            r@ == match self.prefix {
                Some(p) => p@,
                None => default@,
            },
    {
        match &self.prefix {
            Some(p) => p.clone(),
            None => String::from_str(default),
        }
    }
}

} // verus!
