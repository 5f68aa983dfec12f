//! Token-bucket rate limiting for backend operation classes, keyed by
//! `(tenant, operation class)`.
//!
//! Each bucket holds an integral number of tokens. A charge first refills
//! the bucket from the elapsed time, then debits the cost if the bucket
//! holds enough. Every bucket keeps `0 <= tokens <= capacity`, and charging
//! one key never touches another key's bucket.
use vstd::prelude::*;

use crate::json::{spec_get, Json, JVal};

verus! {

/// One hour, in milliseconds: the cap on a single refill interval and the
/// idle age at which a bucket is evicted.
pub const BUCKET_IDLE_MS: u64 = 3600000;

/// Per-service rate limits, in operations (or units) per second.
#[derive(Clone, Copy, PartialEq, Eq, Structural, Debug)]
pub struct AwsServiceLimits {
    pub dynamodb_read_units: u32,
    pub dynamodb_write_units: u32,
    pub dynamodb_queries_per_sec: u32,
    pub s3_get_requests_per_sec: u32,
    pub s3_put_requests_per_sec: u32,
    pub s3_list_requests_per_sec: u32,
    pub eventbridge_put_events_per_sec: u32,
    pub eventbridge_events_batch_size: u32,
    pub secrets_manager_requests_per_sec: u32,
    pub aws_api_calls_per_sec: u32,
    pub aws_burst_capacity: u32,
}

impl AwsServiceLimits {
    /// Conservative multi-tenant defaults.
    pub open spec fn spec_default() -> AwsServiceLimits {
        AwsServiceLimits {
            dynamodb_read_units: 1000,
            dynamodb_write_units: 1000,
            dynamodb_queries_per_sec: 100,
            s3_get_requests_per_sec: 500,
            s3_put_requests_per_sec: 350,
            s3_list_requests_per_sec: 10,
            eventbridge_put_events_per_sec: 1000,
            eventbridge_events_batch_size: 10,
            secrets_manager_requests_per_sec: 500,
            aws_api_calls_per_sec: 200,
            aws_burst_capacity: 1000,
        }
    }
}

impl Default for AwsServiceLimits {
    /// Conservative multi-tenant defaults.
    fn default() -> (r: Self)
        ensures
            r == AwsServiceLimits::spec_default(),
            r == (AwsServiceLimits {
                dynamodb_read_units: 1000,
                dynamodb_write_units: 1000,
                dynamodb_queries_per_sec: 100,
                s3_get_requests_per_sec: 500,
                s3_put_requests_per_sec: 350,
                s3_list_requests_per_sec: 10,
                eventbridge_put_events_per_sec: 1000,
                eventbridge_events_batch_size: 10,
                secrets_manager_requests_per_sec: 500,
                aws_api_calls_per_sec: 200,
                aws_burst_capacity: 1000,
            }),
    {
        AwsServiceLimits {
            dynamodb_read_units: 1000,
            dynamodb_write_units: 1000,
            dynamodb_queries_per_sec: 100,
            s3_get_requests_per_sec: 500,
            s3_put_requests_per_sec: 350,
            s3_list_requests_per_sec: 10,
            eventbridge_put_events_per_sec: 1000,
            eventbridge_events_batch_size: 10,
            secrets_manager_requests_per_sec: 500,
            aws_api_calls_per_sec: 200,
            aws_burst_capacity: 1000,
        }
    }
}

/// One token bucket. `tokens` and `capacity` are held in thousandths of
/// a token, so a refill of `elapsed_ms * rate` thousandths is the spec's
/// real-valued `elapsed_seconds * rate` exactly at millisecond precision
/// — no sub-token remainder is ever lost. `refill_rate` is whole tokens
/// per second.
#[derive(Clone, Copy, PartialEq, Eq, Structural, Debug)]
pub struct RateLimitBucket {
    pub tokens: u64,
    pub last_refill_ms: u64,
    pub capacity: u64,
    pub refill_rate: u64,
}

impl RateLimitBucket {
    /// `0 <= tokens <= capacity`, with capacity and rate small enough that
    /// refill arithmetic cannot overflow.
    pub open spec fn wf(&self) -> bool {
        &&& self.tokens <= self.capacity
        &&& self.capacity <= 4294967295000
        &&& self.refill_rate <= u32::MAX
    }

    /// The count of token-thousandths after refilling at `now_ms`:
    /// elapsed milliseconds (capped at one hour) times the per-second
    /// rate, clipped to the capacity. With the limiter's classes the
    /// capacity equals one second's refill, so the one-hour cap never
    /// loses tokens.
    pub open spec fn spec_refilled(&self, now_ms: u64) -> int {
        let elapsed = if now_ms >= self.last_refill_ms {
            now_ms - self.last_refill_ms
        } else {
            0
        };
        let capped = if elapsed > BUCKET_IDLE_MS {
            BUCKET_IDLE_MS as int
        } else {
            elapsed
        };
        let refilled = self.tokens + capped * self.refill_rate;
        if refilled > self.capacity {
            self.capacity as int
        } else {
            refilled
        }
    }

    /// A full bucket holding `capacity` whole tokens.
    pub fn new(capacity: u64, refill_rate: u64, now_ms: u64) -> (b: Self)
        requires
            capacity <= u32::MAX,
            refill_rate <= u32::MAX,
        ensures
            b == (RateLimitBucket {
                tokens: (capacity * 1000) as u64,
                last_refill_ms: now_ms,
                capacity: (capacity * 1000) as u64,
                refill_rate,
            }),
            b.wf(),
    {
        let milli: u64 = capacity * 1000;
        RateLimitBucket { tokens: milli, last_refill_ms: now_ms, capacity: milli, refill_rate }
    }

    /// Refill, then debit `cost` whole tokens if the bucket holds them.
    pub fn try_consume(&mut self, cost: u64, now_ms: u64) -> (allowed: bool)
        requires
            old(self).wf(),
            cost <= u32::MAX,
        ensures
            final(self).wf(),
            final(self).capacity == old(self).capacity,
            final(self).refill_rate == old(self).refill_rate,
            final(self).last_refill_ms == now_ms,
            allowed == (old(self).spec_refilled(now_ms) >= cost * 1000),
            final(self).tokens == if allowed {
                old(self).spec_refilled(now_ms) - cost * 1000
            } else {
                old(self).spec_refilled(now_ms)
            },
    {
        let elapsed: u64 = if now_ms >= self.last_refill_ms {
            now_ms - self.last_refill_ms
        } else {
            0
        };
        let capped: u64 = if elapsed > BUCKET_IDLE_MS {
            BUCKET_IDLE_MS
        } else {
            elapsed
        };
        proof {
            assert(capped as int * self.refill_rate as int <= 3600000int * 0xffffffffint)
                by (nonlinear_arith)
                requires
                    capped <= 3600000,
                    self.refill_rate <= 0xffffffff,
            ;
        }
        let gained: u64 = capped * self.refill_rate;
        let raw: u64 = self.tokens + gained;
        let refilled: u64 = if raw > self.capacity {
            self.capacity
        } else {
            raw
        };
        let cost_milli: u64 = cost * 1000;
        self.last_refill_ms = now_ms;
        if refilled >= cost_milli {
            self.tokens = refilled - cost_milli;
            true
        } else {
            self.tokens = refilled;
            false
        }
    }
}

/// Operation classes that are rate limited.
#[derive(Clone, Copy, PartialEq, Eq, Structural, Debug)]
pub enum AwsOperation {
    DynamoDbQuery,
    DynamoDbRead { read_units: u32 },
    DynamoDbWrite { write_units: u32 },
    S3Get,
    S3Put,
    S3List,
    EventBridgePutEvents { event_count: u32 },
    SecretsManagerGet,
    GenericAwsApi,
}

impl AwsOperation {
    /// The bucket-key fragment for this operation's service.
    pub open spec fn spec_service_key(&self) -> Seq<char> {
        match self {
            AwsOperation::DynamoDbQuery => "dynamodb_query"@,
            AwsOperation::DynamoDbRead { .. } => "dynamodb_read"@,
            AwsOperation::DynamoDbWrite { .. } => "dynamodb_write"@,
            AwsOperation::S3Get => "s3_get"@,
            AwsOperation::S3Put => "s3_put"@,
            AwsOperation::S3List => "s3_list"@,
            AwsOperation::EventBridgePutEvents { .. } => "eventbridge_put"@,
            AwsOperation::SecretsManagerGet => "secrets_get"@,
            AwsOperation::GenericAwsApi => "aws_api"@,
        }
    }

    pub fn service_key(&self) -> (r: &'static str)
        ensures
            r@ == self.spec_service_key(),
    {
        match self {
            AwsOperation::DynamoDbQuery => "dynamodb_query",
            AwsOperation::DynamoDbRead { .. } => "dynamodb_read",
            AwsOperation::DynamoDbWrite { .. } => "dynamodb_write",
            AwsOperation::S3Get => "s3_get",
            AwsOperation::S3Put => "s3_put",
            AwsOperation::S3List => "s3_list",
            AwsOperation::EventBridgePutEvents { .. } => "eventbridge_put",
            AwsOperation::SecretsManagerGet => "secrets_get",
            AwsOperation::GenericAwsApi => "aws_api",
        }
    }

    /// How many events a batch call carries: the length of the `events`
    /// array in the arguments, 1 when absent or not an array.
    pub open spec fn spec_event_count(args: JVal) -> u32 {
        match spec_get(args, "events"@) {
            Some(JVal::Arr(a)) => if a.len() > u32::MAX {
                u32::MAX
            } else {
                a.len() as u32
            },
            _ => 1u32,
        }
    }

    /// The operation class a tool call charges, from the tool name and its
    /// arguments. Unknown tools charge the generic class.
    pub open spec fn spec_from_tool_name(name: Seq<char>, args: JVal) -> Option<AwsOperation> {
        if name == "kv_get"@ || name == "kv_list"@ {
            Some(AwsOperation::DynamoDbRead { read_units: 1u32 })
        } else if name == "kv_set"@ || name == "kv_delete"@ {
            Some(AwsOperation::DynamoDbWrite { write_units: 1u32 })
        } else if name == "artifacts_get"@ {
            Some(AwsOperation::S3Get)
        } else if name == "artifacts_list"@ {
            Some(AwsOperation::S3List)
        } else if name == "artifacts_put"@ {
            Some(AwsOperation::S3Put)
        } else if name == "events_send"@ {
            Some(AwsOperation::EventBridgePutEvents {
                event_count: AwsOperation::spec_event_count(args),
            })
        } else if name == "analytics_query"@ {
            Some(AwsOperation::DynamoDbQuery)
        } else {
            Some(AwsOperation::GenericAwsApi)
        }
    }

    pub fn from_tool_name(tool_name: &str, args: &Json) -> (r: Option<AwsOperation>)
        ensures
            r == AwsOperation::spec_from_tool_name(tool_name@, args@),
    {
        if crate::json::str_eq(tool_name, "kv_get") || crate::json::str_eq(tool_name, "kv_list") {
            Some(AwsOperation::DynamoDbRead { read_units: 1 })
        } else if crate::json::str_eq(tool_name, "kv_set") || crate::json::str_eq(
            tool_name,
            "kv_delete",
        ) {
            Some(AwsOperation::DynamoDbWrite { write_units: 1 })
        } else if crate::json::str_eq(tool_name, "artifacts_get") {
            Some(AwsOperation::S3Get)
        } else if crate::json::str_eq(tool_name, "artifacts_list") {
            Some(AwsOperation::S3List)
        } else if crate::json::str_eq(tool_name, "artifacts_put") {
            Some(AwsOperation::S3Put)
        } else if crate::json::str_eq(tool_name, "events_send") {
            let count: u32 = match args.get("events") {
                Some(ev) => match ev.as_array() {
                    Some(a) => {
                        proof {
                            crate::json::lemma_view_json_seq(a@);
                        }
                        let n: usize = a.len();
                        if n > 0xffffffff {
                            u32::MAX
                        } else {
                            n as u32
                        }
                    },
                    None => 1,
                },
                None => 1,
            };
            Some(AwsOperation::EventBridgePutEvents { event_count: count })
        } else if crate::json::str_eq(tool_name, "analytics_query") {
            Some(AwsOperation::DynamoDbQuery)
        } else {
            Some(AwsOperation::GenericAwsApi)
        }
    }
}

/// Bucket keys separate tenants: for tenant identifiers free of the
/// separator, two equal bucket keys name the same tenant. With the
/// charge frame — every key but the charged one is untouched — this is
/// the tenant-isolation property: debiting one tenant's class never
/// reaches another tenant's buckets. A tenant identifier that itself
/// holds `':'` is the one input left out.
pub proof fn lemma_bucket_key_tenant_injective(
    t1: Seq<char>,
    t2: Seq<char>,
    o1: AwsOperation,
    o2: AwsOperation,
)
    requires
        forall|i: int| 0 <= i < t1.len() ==> t1[i] != ':',
        forall|i: int| 0 <= i < t2.len() ==> t2[i] != ':',
        AwsRateLimiter::spec_bucket_key(t1, o1) == AwsRateLimiter::spec_bucket_key(t2, o2),
    ensures
        t1 == t2,
{
    reveal_strlit(":");
    let k1 = AwsRateLimiter::spec_bucket_key(t1, o1);
    let k2 = AwsRateLimiter::spec_bucket_key(t2, o2);
    assert(k1[t1.len() as int] == ':') by {
        assert((t1 + ":"@)[t1.len() as int] == ':');
        assert(k1[t1.len() as int] == (t1 + ":"@)[t1.len() as int]);
    }
    assert(k2[t2.len() as int] == ':') by {
        assert((t2 + ":"@)[t2.len() as int] == ':');
        assert(k2[t2.len() as int] == (t2 + ":"@)[t2.len() as int]);
    }
    if t1.len() < t2.len() {
        assert(k2[t1.len() as int] == t2[t1.len() as int]) by {
            assert((t2 + ":"@)[t1.len() as int] == t2[t1.len() as int]);
            assert(k2[t1.len() as int] == (t2 + ":"@)[t1.len() as int]);
        }
        assert(false);
    }
    if t2.len() < t1.len() {
        assert(k1[t2.len() as int] == t1[t2.len() as int]) by {
            assert((t1 + ":"@)[t2.len() as int] == t1[t2.len() as int]);
            assert(k1[t2.len() as int] == (t1 + ":"@)[t2.len() as int]);
        }
        assert(false);
    }
    assert(t1.len() == t2.len());
    assert forall|i: int| 0 <= i < t1.len() implies t1[i] == t2[i] by {
        assert(k1[i] == (t1 + ":"@)[i]);
        assert((t1 + ":"@)[i] == t1[i]);
        assert(k2[i] == (t2 + ":"@)[i]);
        assert((t2 + ":"@)[i] == t2[i]);
    }
    assert(t1 =~= t2);
}

/// First bucket bound to `key`, if any.
pub open spec fn bucket_of(s: Seq<(String, RateLimitBucket)>, key: Seq<char>) -> Option<
    RateLimitBucket,
>
    decreases s.len(),
{
    if s.len() == 0 {
        None
    } else if s[0].0@ == key {
        Some(s[0].1)
    } else {
        bucket_of(s.drop_first(), key)
    }
}

/// The per-tenant, per-service rate limiter.
pub struct AwsRateLimiter {
    pub limits: AwsServiceLimits,
    pub buckets: Vec<(String, RateLimitBucket)>,
}

impl AwsRateLimiter {
    /// Keys are distinct and every bucket is well formed.
    pub open spec fn wf(&self) -> bool {
        &&& forall|i: int, j: int|
            0 <= i < j < self.buckets@.len() ==> (#[trigger] self.buckets@[i]).0@ != (
            #[trigger] self.buckets@[j]).0@
        &&& forall|i: int| 0 <= i < self.buckets@.len() ==> (#[trigger] self.buckets@[i]).1.wf()
    }

    pub fn new(limits: AwsServiceLimits) -> (r: Self)
        ensures
            r.limits == limits,
            r.buckets@.len() == 0,
            r.wf(),
    {
        AwsRateLimiter { limits, buckets: Vec::new() }
    }

    /// Capacity, refill rate, and cost for one operation. The cost of an
    /// event batch is its size clipped to the configured batch ceiling.
    pub open spec fn spec_limits_for(&self, op: AwsOperation) -> (u64, u64, u64) {
        match op {
            AwsOperation::DynamoDbQuery => (
                self.limits.dynamodb_queries_per_sec as u64,
                self.limits.dynamodb_queries_per_sec as u64,
                1u64,
            ),
            AwsOperation::DynamoDbRead { read_units } => (
                self.limits.dynamodb_read_units as u64,
                self.limits.dynamodb_read_units as u64,
                read_units as u64,
            ),
            AwsOperation::DynamoDbWrite { write_units } => (
                self.limits.dynamodb_write_units as u64,
                self.limits.dynamodb_write_units as u64,
                write_units as u64,
            ),
            AwsOperation::S3Get => (
                self.limits.s3_get_requests_per_sec as u64,
                self.limits.s3_get_requests_per_sec as u64,
                1u64,
            ),
            AwsOperation::S3Put => (
                self.limits.s3_put_requests_per_sec as u64,
                self.limits.s3_put_requests_per_sec as u64,
                1u64,
            ),
            AwsOperation::S3List => (
                self.limits.s3_list_requests_per_sec as u64,
                self.limits.s3_list_requests_per_sec as u64,
                1u64,
            ),
            AwsOperation::EventBridgePutEvents { event_count } => (
                self.limits.eventbridge_put_events_per_sec as u64,
                self.limits.eventbridge_put_events_per_sec as u64,
                if event_count <= self.limits.eventbridge_events_batch_size {
                    event_count as u64
                } else {
                    self.limits.eventbridge_events_batch_size as u64
                },
            ),
            AwsOperation::SecretsManagerGet => (
                self.limits.secrets_manager_requests_per_sec as u64,
                self.limits.secrets_manager_requests_per_sec as u64,
                1u64,
            ),
            AwsOperation::GenericAwsApi => (
                self.limits.aws_api_calls_per_sec as u64,
                self.limits.aws_api_calls_per_sec as u64,
                1u64,
            ),
        }
    }

    fn get_limits_for_operation(&self, op: &AwsOperation) -> (r: (u64, u64, u64))
        ensures
            r == self.spec_limits_for(*op),
    {
        match op {
            AwsOperation::DynamoDbQuery => (
                self.limits.dynamodb_queries_per_sec as u64,
                self.limits.dynamodb_queries_per_sec as u64,
                1,
            ),
            AwsOperation::DynamoDbRead { read_units } => (
                self.limits.dynamodb_read_units as u64,
                self.limits.dynamodb_read_units as u64,
                *read_units as u64,
            ),
            AwsOperation::DynamoDbWrite { write_units } => (
                self.limits.dynamodb_write_units as u64,
                self.limits.dynamodb_write_units as u64,
                *write_units as u64,
            ),
            AwsOperation::S3Get => (
                self.limits.s3_get_requests_per_sec as u64,
                self.limits.s3_get_requests_per_sec as u64,
                1,
            ),
            AwsOperation::S3Put => (
                self.limits.s3_put_requests_per_sec as u64,
                self.limits.s3_put_requests_per_sec as u64,
                1,
            ),
            AwsOperation::S3List => (
                self.limits.s3_list_requests_per_sec as u64,
                self.limits.s3_list_requests_per_sec as u64,
                1,
            ),
            AwsOperation::EventBridgePutEvents { event_count } => (
                self.limits.eventbridge_put_events_per_sec as u64,
                self.limits.eventbridge_put_events_per_sec as u64,
                if *event_count <= self.limits.eventbridge_events_batch_size {
                    *event_count as u64
                } else {
                    self.limits.eventbridge_events_batch_size as u64
                },
            ),
            AwsOperation::SecretsManagerGet => (
                self.limits.secrets_manager_requests_per_sec as u64,
                self.limits.secrets_manager_requests_per_sec as u64,
                1,
            ),
            AwsOperation::GenericAwsApi => (
                self.limits.aws_api_calls_per_sec as u64,
                self.limits.aws_api_calls_per_sec as u64,
                1,
            ),
        }
    }

    /// The bucket key for a tenant and operation.
    pub open spec fn spec_bucket_key(tenant_id: Seq<char>, op: AwsOperation) -> Seq<char> {
        tenant_id + ":"@ + op.spec_service_key()
    }

    /// The bucket this charge starts from: the stored bucket, or a fresh
    /// full one when the key has none yet.
    pub open spec fn spec_charge_source(&self, key: Seq<char>, op: AwsOperation, now_ms: u64) -> RateLimitBucket {
        match bucket_of(self.buckets@, key) {
            Some(b) => b,
            None => RateLimitBucket {
                tokens: (self.spec_limits_for(op).0 * 1000) as u64,
                last_refill_ms: now_ms,
                capacity: (self.spec_limits_for(op).0 * 1000) as u64,
                refill_rate: self.spec_limits_for(op).1,
            },
        }
    }

    /// Charge `(tenant, op)`. Every other key's bucket is untouched.
    pub fn check_aws_operation(&mut self, tenant_id: &str, op: &AwsOperation, now_ms: u64) -> (allowed: bool)
        requires
            old(self).wf(),
        ensures
            final(self).wf(),
            final(self).limits == old(self).limits,
            ({
                let key = AwsRateLimiter::spec_bucket_key(tenant_id@, *op);
                let src = old(self).spec_charge_source(key, *op, now_ms);
                let cost = old(self).spec_limits_for(*op).2;
                &&& allowed == (src.spec_refilled(now_ms) >= cost * 1000)
                &&& bucket_of(final(self).buckets@, key) matches Some(b2) && b2.tokens == (
                    if allowed {
                        src.spec_refilled(now_ms) - cost * 1000
                    } else {
                        src.spec_refilled(now_ms)
                    }) && b2.last_refill_ms == now_ms
                &&& forall|k2: Seq<char>|
                    k2 != key ==> #[trigger] bucket_of(final(self).buckets@, k2) == bucket_of(
                        old(self).buckets@,
                        k2,
                    )
            }),
    {
        let (capacity, rate, cost) = self.get_limits_for_operation(op);
        proof {
            assert(cost <= u32::MAX);
        }
        let mut key = String::new();
        key.append(tenant_id);
        key.append(":");
        key.append(op.service_key());
        proof {
            assert(key@ =~= AwsRateLimiter::spec_bucket_key(tenant_id@, *op));
        }
        let ghost key_v = key@;
        let n: usize = self.buckets.len();
        let mut i: usize = 0;
        while i < n
            invariant
                0 <= i <= n,
                *self == *old(self),
                old(self).wf(),
                n == self.buckets@.len(),
                forall|x: int| 0 <= x < i ==> (#[trigger] self.buckets@[x]).0@ != key_v,
                key@ == key_v,
                key_v == AwsRateLimiter::spec_bucket_key(tenant_id@, *op),
                (capacity, rate, cost) == old(self).spec_limits_for(*op),
            decreases n - i,
        {
            if self.buckets[i].0.eq(&key) {
                let ghost pre = self.buckets@;
                let mut b: RateLimitBucket = self.buckets[i].1;
                proof {
                    assert(pre[i as int].1.wf());
                }
                let allowed = b.try_consume(cost, now_ms);
                let k2 = self.buckets[i].0.clone();
                self.buckets[i] = (k2, b);
                proof {
                    assert(self.buckets@ =~= pre.update(i as int, (pre[i as int].0, b)));
                    lemma_bucket_of_found(pre, i as int, key_v);
                    lemma_bucket_of_update(pre, i as int, (pre[i as int].0, b));
                    lemma_bucket_of_found(self.buckets@, i as int, key_v);
                    assert forall|x: int| 0 <= x < self.buckets@.len() implies (
                    #[trigger] self.buckets@[x]).1.wf() by {
                        if x != i {
                            assert(self.buckets@[x] == pre[x]);
                        }
                    }
                    assert forall|x: int, y: int|
                        0 <= x < y < self.buckets@.len() implies (
                    #[trigger] self.buckets@[x]).0@ != (#[trigger] self.buckets@[y]).0@ by {
                        assert(self.buckets@[x].0@ == pre[x].0@);
                        assert(self.buckets@[y].0@ == pre[y].0@);
                    }
                }
                return allowed;
            }
            i = i + 1;
        }
        proof {
            lemma_bucket_of_absent(self.buckets@, key_v);
        }
        let mut b = RateLimitBucket::new(capacity, rate, now_ms);
        let allowed = b.try_consume(cost, now_ms);
        let ghost pre = self.buckets@;
        self.buckets.push((key, b));
        proof {
            lemma_bucket_of_push_all(pre, (key, b));
            assert(bucket_of(self.buckets@, key_v) == Some(b));
            assert forall|x: int| 0 <= x < self.buckets@.len() implies (
            #[trigger] self.buckets@[x]).1.wf() by {
                if x < pre.len() {
                    assert(self.buckets@[x] == pre[x]);
                }
            }
            assert forall|x: int, y: int|
                0 <= x < y < self.buckets@.len() implies (#[trigger] self.buckets@[x]).0@ != (
            #[trigger] self.buckets@[y]).0@ by {
                if y < pre.len() {
                    assert(self.buckets@[x] == pre[x] && self.buckets@[y] == pre[y]);
                } else {
                    assert(self.buckets@[x] == pre[x]);
                    assert(self.buckets@[y].0@ == key_v);
                }
            }
        }
        allowed
    }

    /// Drop buckets that have not refilled within the idle window.
    pub fn cleanup_expired_buckets(&mut self, now_ms: u64)
        requires
            old(self).wf(),
        ensures
            final(self).wf(),
            final(self).limits == old(self).limits,
            final(self).buckets@ == old(self).buckets@.filter(
                |e: (String, RateLimitBucket)|
                    (if now_ms >= e.1.last_refill_ms {
                        now_ms - e.1.last_refill_ms
                    } else {
                        0
                    }) < BUCKET_IDLE_MS,
            ),
    {
        let ghost pred = |e: (String, RateLimitBucket)|
            (if now_ms >= e.1.last_refill_ms {
                now_ms - e.1.last_refill_ms
            } else {
                0
            }) < BUCKET_IDLE_MS;
        let ghost orig = self.buckets@;
        let n: usize = self.buckets.len();
        let mut kept: Vec<(String, RateLimitBucket)> = Vec::new();
        let mut i: usize = 0;
        proof {
            assert(orig.take(0) =~= Seq::<(String, RateLimitBucket)>::empty());
            reveal(Seq::filter);
            assert(kept@ == orig.take(0).filter(pred));
        }
        while i < n
            invariant
                0 <= i <= n,
                n == orig.len(),
                *self == *old(self),
                old(self).wf(),
                orig == old(self).buckets@,
                pred == (|e: (String, RateLimitBucket)|
                    (if now_ms >= e.1.last_refill_ms {
                        now_ms - e.1.last_refill_ms
                    } else {
                        0
                    }) < BUCKET_IDLE_MS),
                kept@ == orig.take(i as int).filter(pred),
            decreases n - i,
        {
            let e = (self.buckets[i].0.clone(), self.buckets[i].1);
            let age: u64 = if now_ms >= e.1.last_refill_ms {
                now_ms - e.1.last_refill_ms
            } else {
                0
            };
            proof {
                reveal(Seq::filter);
                assert(orig.take(i + 1).drop_last() =~= orig.take(i as int));
                assert(orig.take(i + 1).last() == orig[i as int]);
                assert(e.0@ == orig[i as int].0@ && e.1 == orig[i as int].1);
            }
            if age < BUCKET_IDLE_MS {
                proof {
                    assert(pred(orig[i as int]));
                }
                kept.push(e);
                proof {
                    assert(kept@ =~= orig.take(i + 1).filter(pred)) by {
                        assert(orig.take(i + 1).filter(pred) == orig.take(i as int).filter(
                            pred,
                        ).push(orig[i as int]));
                        assert(e.0 == orig[i as int].0);
                    }
                }
            } else {
                proof {
                    assert(!pred(orig[i as int]));
                    assert(orig.take(i + 1).filter(pred) == orig.take(i as int).filter(pred));
                }
            }
            i = i + 1;
        }
        proof {
            assert(orig.take(n as int) =~= orig);
        }
        self.buckets = kept;
        proof {
            lemma_filter_wf(orig, pred);
        }
    }
}

/// Every element of a filtered sequence occurs in the source.
pub(crate) proof fn lemma_filter_mem<A>(s: Seq<A>, pred: spec_fn(A) -> bool, i: int)
    requires
        0 <= i < s.filter(pred).len(),
    ensures
        s.contains(s.filter(pred)[i]),
    decreases s.len(),
{
    reveal(Seq::filter);
    if s.len() > 0 {
        let head = s.drop_last();
        if pred(s.last()) {
            if i < s.filter(pred).len() - 1 {
                lemma_filter_mem(head, pred, i);
                let j = choose|j: int| 0 <= j < head.len() && head[j] == head.filter(pred)[i];
                assert(s[j] == s.filter(pred)[i]);
            } else {
                assert(s[s.len() - 1] == s.filter(pred)[i]);
            }
        } else {
            lemma_filter_mem(head, pred, i);
            let j = choose|j: int| 0 <= j < head.len() && head[j] == head.filter(pred)[i];
            assert(s[j] == s.filter(pred)[i]);
        }
    }
}

/// A filtered bucket table keeps distinct keys and well-formed buckets.
proof fn lemma_filter_wf(
    s: Seq<(String, RateLimitBucket)>,
    pred: spec_fn((String, RateLimitBucket)) -> bool,
)
    requires
        forall|i: int, j: int|
            0 <= i < j < s.len() ==> (#[trigger] s[i]).0@ != (#[trigger] s[j]).0@,
        forall|i: int| 0 <= i < s.len() ==> (#[trigger] s[i]).1.wf(),
    ensures
        forall|i: int, j: int|
            0 <= i < j < s.filter(pred).len() ==> (#[trigger] s.filter(pred)[i]).0@ != (
            #[trigger] s.filter(pred)[j]).0@,
        forall|i: int| 0 <= i < s.filter(pred).len() ==> (#[trigger] s.filter(pred)[i]).1.wf(),
    decreases s.len(),
{
    reveal(Seq::filter);
    if s.len() > 0 {
        let head = s.drop_last();
        assert forall|i: int| 0 <= i < head.len() implies (#[trigger] head[i]).1.wf() by {
            assert(head[i] == s[i]);
        }
        assert forall|i: int, j: int|
            0 <= i < j < head.len() implies (#[trigger] head[i]).0@ != (
        #[trigger] head[j]).0@ by {
            assert(head[i] == s[i] && head[j] == s[j]);
        }
        lemma_filter_wf(head, pred);
        let f = s.filter(pred);
        let fh = head.filter(pred);
        if pred(s.last()) {
            assert(f == fh.push(s.last()));
            assert forall|i: int| 0 <= i < f.len() implies (#[trigger] f[i]).1.wf() by {
                if i < fh.len() {
                    assert(f[i] == fh[i]);
                } else {
                    assert(f[i] == s.last());
                    assert(s[s.len() - 1].1.wf());
                }
            }
            assert forall|i: int, j: int|
                0 <= i < j < f.len() implies (#[trigger] f[i]).0@ != (#[trigger] f[j]).0@ by {
                if j < fh.len() {
                    assert(f[i] == fh[i] && f[j] == fh[j]);
                } else {
                    assert(f[i] == fh[i]);
                    assert(f[j] == s.last());
                    lemma_filter_mem(head, pred, i);
                    let w = choose|w: int| 0 <= w < head.len() && head[w] == fh[i];
                    assert(s[w] == fh[i]);
                    assert(s[w].0@ != s[s.len() - 1].0@);
                }
            }
        } else {
            assert(f == fh);
        }
    }
}

/// The first match at index `i` is what `bucket_of` finds.
proof fn lemma_bucket_of_found(s: Seq<(String, RateLimitBucket)>, i: int, key: Seq<char>)
    requires
        0 <= i < s.len(),
        s[i].0@ == key,
        forall|x: int| 0 <= x < i ==> (#[trigger] s[x]).0@ != key,
    ensures
        bucket_of(s, key) == Some(s[i].1),
    decreases i,
{
    if i > 0 {
        assert(s[0].0@ != key);
        assert(s.drop_first()[i - 1] == s[i]);
        assert forall|x: int| 0 <= x < i - 1 implies (#[trigger] s.drop_first()[x]).0@ != key by {
            assert(s.drop_first()[x] == s[x + 1]);
        }
        lemma_bucket_of_found(s.drop_first(), i - 1, key);
    }
}

/// A key bound nowhere has no bucket.
proof fn lemma_bucket_of_absent(s: Seq<(String, RateLimitBucket)>, key: Seq<char>)
    requires
        forall|x: int| 0 <= x < s.len() ==> (#[trigger] s[x]).0@ != key,
    ensures
        bucket_of(s, key) is None,
    decreases s.len(),
{
    if s.len() > 0 {
        assert forall|x: int|
            0 <= x < s.drop_first().len() implies (#[trigger] s.drop_first()[x]).0@ != key by {
            assert(s.drop_first()[x] == s[x + 1]);
        }
        lemma_bucket_of_absent(s.drop_first(), key);
    }
}

/// Replacing the entry at `i` with one of the same key changes no other
/// key's lookup.
proof fn lemma_bucket_of_update(s: Seq<(String, RateLimitBucket)>, i: int, e: (String, RateLimitBucket))
    requires
        0 <= i < s.len(),
        e.0@ == s[i].0@,
    ensures
        forall|key: Seq<char>|
            key != s[i].0@ ==> #[trigger] bucket_of(s.update(i, e), key) == bucket_of(s, key),
{
    assert forall|key: Seq<char>| key != s[i].0@ implies #[trigger] bucket_of(s.update(i, e), key)
        == bucket_of(s, key) by {
        lemma_bucket_of_update_one(s, i, e, key);
    }
}

proof fn lemma_bucket_of_update_one(
    s: Seq<(String, RateLimitBucket)>,
    i: int,
    e: (String, RateLimitBucket),
    key: Seq<char>,
)
    requires
        0 <= i < s.len(),
        e.0@ == s[i].0@,
        key != s[i].0@,
    ensures
        bucket_of(s.update(i, e), key) == bucket_of(s, key),
    decreases i,
{
    let s2 = s.update(i, e);
    if i == 0 {
        assert(s2[0].0@ == s[0].0@);
        assert(s2.drop_first() =~= s.drop_first());
    } else {
        assert(s2[0] == s[0]);
        if s[0].0@ != key {
            assert(s2.drop_first() =~= s.drop_first().update(i - 1, e));
            assert(s.drop_first()[i - 1] == s[i]);
            lemma_bucket_of_update_one(s.drop_first(), i - 1, e, key);
        }
    }
}

/// Appending an entry changes only its own key's lookup, and binds that key
/// where it was absent before.
proof fn lemma_bucket_of_push_all(s: Seq<(String, RateLimitBucket)>, e: (String, RateLimitBucket))
    requires
        forall|x: int| 0 <= x < s.len() ==> (#[trigger] s[x]).0@ != e.0@,
    ensures
        bucket_of(s.push(e), e.0@) == Some(e.1),
        forall|key: Seq<char>|
            key != e.0@ ==> #[trigger] bucket_of(s.push(e), key) == bucket_of(s, key),
{
    lemma_bucket_of_push(s, e, e.0@);
    assert forall|key: Seq<char>| key != e.0@ implies #[trigger] bucket_of(s.push(e), key)
        == bucket_of(s, key) by {
        lemma_bucket_of_push(s, e, key);
    }
}

proof fn lemma_bucket_of_push(
    s: Seq<(String, RateLimitBucket)>,
    e: (String, RateLimitBucket),
    key: Seq<char>,
)
    ensures
        key != e.0@ ==> bucket_of(s.push(e), key) == bucket_of(s, key),
        (key == e.0@ && (forall|x: int| 0 <= x < s.len() ==> (#[trigger] s[x]).0@ != key))
            ==> bucket_of(s.push(e), key) == Some(e.1),
    decreases s.len(),
{
    let s2 = s.push(e);
    if s.len() == 0 {
        assert(s2[0] == e);
        assert(s2.drop_first() =~= Seq::<(String, RateLimitBucket)>::empty());
    } else {
        assert(s2[0] == s[0]);
        assert(s2.drop_first() =~= s.drop_first().push(e));
        assert forall|x: int|
            0 <= x < s.drop_first().len() implies #[trigger] s.drop_first()[x] == s[x + 1] by {}
        lemma_bucket_of_push(s.drop_first(), e, key);
        if key != e.0@ {
            if s[0].0@ == key {
                assert(bucket_of(s2, key) == Some(s2[0].1));
                assert(bucket_of(s, key) == Some(s[0].1));
            } else {
                assert(bucket_of(s2, key) == bucket_of(s2.drop_first(), key));
                assert(bucket_of(s2.drop_first(), key) == bucket_of(
                    s.drop_first().push(e),
                    key,
                ));
                assert(bucket_of(s, key) == bucket_of(s.drop_first(), key));
            }
        } else {
            if forall|x: int| 0 <= x < s.len() ==> (#[trigger] s[x]).0@ != key {
                assert(s[0].0@ != key);
                assert(bucket_of(s2, key) == bucket_of(s2.drop_first(), key));
                assert(bucket_of(s.drop_first().push(e), key) == Some(e.1));
            }
        }
    }
}

} // verus!