use mcp_rust::json::{parse_json_str, Json};
use mcp_rust::rate_limiting::{AwsOperation, AwsRateLimiter, AwsServiceLimits, RateLimitBucket};

fn small_read_limits(read_units: u32) -> AwsServiceLimits {
    let mut limits = AwsServiceLimits::default();
    limits.dynamodb_read_units = read_units;
    limits
}

#[test]
fn test_rate_limiter_basic() {
    let limiter_limits = small_read_limits(10);
    let mut limiter = AwsRateLimiter::new(limiter_limits);

    // Should allow initial requests
    assert!(limiter.check_aws_operation("tenant1", &AwsOperation::DynamoDbRead { read_units: 5 }, 0));
    assert!(limiter.check_aws_operation("tenant1", &AwsOperation::DynamoDbRead { read_units: 5 }, 0));

    // Should reject when limit exceeded
    assert!(!limiter.check_aws_operation("tenant1", &AwsOperation::DynamoDbRead { read_units: 1 }, 0));
}

#[test]
fn test_tenant_isolation() {
    let limiter_limits = small_read_limits(5);
    let mut limiter = AwsRateLimiter::new(limiter_limits);

    // Tenant 1 uses up their quota
    assert!(limiter.check_aws_operation("tenant1", &AwsOperation::DynamoDbRead { read_units: 5 }, 0));
    assert!(!limiter.check_aws_operation("tenant1", &AwsOperation::DynamoDbRead { read_units: 1 }, 0));

    // Tenant 2 should still have their quota
    assert!(limiter.check_aws_operation("tenant2", &AwsOperation::DynamoDbRead { read_units: 5 }, 0));
}

#[test]
fn test_bucket_refills_over_time() {
    let mut bucket = RateLimitBucket::new(10, 10, 0);
    assert!(bucket.try_consume(10, 0));
    assert!(!bucket.try_consume(1, 0));
    // one second at ten tokens per second refills the bucket
    assert!(bucket.try_consume(5, 1000));
    // five whole tokens remain, held as thousandths
    assert_eq!(bucket.tokens, 5000);
}

#[test]
fn test_bucket_keeps_sub_token_remainders() {
    let mut bucket = RateLimitBucket::new(10, 1, 0);
    assert!(bucket.try_consume(10, 0));
    // half a second at one token per second gains half a token
    assert!(bucket.try_consume(0, 500));
    assert_eq!(bucket.tokens, 500);
    // the remainder is kept: a full token is there at one second exactly
    assert!(bucket.try_consume(1, 1000));
    assert_eq!(bucket.tokens, 0);
}

#[test]
fn test_bucket_never_exceeds_capacity() {
    let mut bucket = RateLimitBucket::new(10, 1000, 0);
    // a long idle period refills at most to capacity
    assert!(bucket.try_consume(0, 10_000_000));
    assert_eq!(bucket.tokens, 10_000);
    assert!(bucket.tokens <= bucket.capacity);
}

#[test]
fn test_service_keys() {
    assert_eq!(AwsOperation::DynamoDbQuery.service_key(), "dynamodb_query");
    assert_eq!(AwsOperation::DynamoDbRead { read_units: 1 }.service_key(), "dynamodb_read");
    assert_eq!(AwsOperation::S3Put.service_key(), "s3_put");
    assert_eq!(
        AwsOperation::EventBridgePutEvents { event_count: 3 }.service_key(),
        "eventbridge_put"
    );
    assert_eq!(AwsOperation::GenericAwsApi.service_key(), "aws_api");
}

#[test]
fn test_aws_operation_from_tool_name() {
    let empty = Json::Obj(Vec::new());
    assert_eq!(
        AwsOperation::from_tool_name("kv_get", &empty),
        Some(AwsOperation::DynamoDbRead { read_units: 1 })
    );
    assert_eq!(
        AwsOperation::from_tool_name("kv_set", &empty),
        Some(AwsOperation::DynamoDbWrite { write_units: 1 })
    );
    assert_eq!(AwsOperation::from_tool_name("artifacts_get", &empty), Some(AwsOperation::S3Get));
    assert_eq!(AwsOperation::from_tool_name("artifacts_list", &empty), Some(AwsOperation::S3List));
    assert_eq!(AwsOperation::from_tool_name("artifacts_put", &empty), Some(AwsOperation::S3Put));
    assert_eq!(
        AwsOperation::from_tool_name("analytics_query", &empty),
        Some(AwsOperation::DynamoDbQuery)
    );
    assert_eq!(
        AwsOperation::from_tool_name("something_else", &empty),
        Some(AwsOperation::GenericAwsApi)
    );
}

#[test]
fn test_events_send_cost_counts_batch() {
    let args = parse_json_str("{\"events\":[1,2,3]}").unwrap();
    assert_eq!(
        AwsOperation::from_tool_name("events_send", &args),
        Some(AwsOperation::EventBridgePutEvents { event_count: 3 })
    );
    let no_events = parse_json_str("{}").unwrap();
    assert_eq!(
        AwsOperation::from_tool_name("events_send", &no_events),
        Some(AwsOperation::EventBridgePutEvents { event_count: 1 })
    );
}

#[test]
fn test_event_batch_cost_clipped_to_ceiling() {
    // ceiling 2: a batch of 5 costs only 2, so two batches fit in capacity 4
    let mut limits = AwsServiceLimits::default();
    limits.eventbridge_put_events_per_sec = 4;
    limits.eventbridge_events_batch_size = 2;
    let mut limiter = AwsRateLimiter::new(limits);
    let op = AwsOperation::EventBridgePutEvents { event_count: 5 };
    assert!(limiter.check_aws_operation("t", &op, 0));
    assert!(limiter.check_aws_operation("t", &op, 0));
    assert!(!limiter.check_aws_operation("t", &op, 0));
}

#[test]
fn test_cleanup_expired_buckets() {
    let mut limiter = AwsRateLimiter::new(AwsServiceLimits::default());
    assert!(limiter.check_aws_operation("t1", &AwsOperation::S3Get, 0));
    assert!(limiter.check_aws_operation("t2", &AwsOperation::S3Get, 1_000_000));
    assert_eq!(limiter.buckets.len(), 2);
    // an hour after the first bucket's refill, only the second stays
    limiter.cleanup_expired_buckets(3_600_000);
    assert_eq!(limiter.buckets.len(), 1);
    assert_eq!(limiter.buckets[0].0, "t2:s3_get");
}
