//! Verified core of a Jito block-engine client: endpoint planning, URL header
//! extraction, transaction encoding and address selection.

pub mod balancer;
pub mod builder;
pub mod encoding;
pub mod headers;
pub mod ip;
pub mod requests;
pub mod rpc;
pub mod text;

pub use balancer::EntryBalancer;
pub use builder::{BuilderView, ClientPlan, EntryPlan, EntrySpec, JitoClientBuilder};
pub use encoding::{
    MAX_TRANSACTION_SIZE, TxError, serialize_tx, serialize_tx_checked, serialize_tx_vec,
    serialize_tx_vec_checked,
};
pub use headers::{HeaderError, HeaderFault, split_url};
pub use ip::{IpAddress, IpFamily, get_ip_list, get_ipv4_list, get_ipv6_list};
pub use requests::{Endpoint, PostRequest, PostView, plan_post, plan_posts};
pub use rpc::{
    BundleIdError, RpcCall, RpcData, bundle_call, bundle_id_from_header, bundle_id_from_result,
    bundle_statuses_call, failure_message, inflight_bundle_statuses_call, is_success_status,
    transaction_call,
};
