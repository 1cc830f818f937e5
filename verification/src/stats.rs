//! Per-request telemetry: which counters a finished request bumps.  The sink
//! that receives them lives outside; this module only decides the updates.

use vstd::prelude::*;
use crate::maps::str_eq;

verus! {

pub struct InfluxDBConfig {
    pub influxdb_url: String,
    pub influxdb_org: String,
    pub influxdb_bucket: String,
    pub influxdb_auth_token: String,
}

#[derive(Clone, Copy, PartialEq, Eq, Structural, Debug)]
pub enum CounterKind {
    TotalRequest,
    TotalSuccess,
    TotalTunnelInitiated,
    TotalByteTransferred,
}

pub struct CounterUpdate {
    pub kind: CounterKind,
    pub value: i64,
}

pub struct Statistics;

impl Statistics {
    /// The counters one finished request bumps: every request counts once;
    /// a successful `/proxy` adds its bytes and a success; a successful
    /// `/init-tunnel` counts a tunnel.
    pub fn update(request_path: &str, total_byte_transferred: i64, response_status: u16) -> (r:
        Vec<CounterUpdate>)
        ensures
            r@.len() >= 1 && r@[0].kind == CounterKind::TotalRequest && r@[0].value == 1,
            response_status == 200 && request_path@ == "/proxy"@ ==> r@.len() == 3 && r@[1].kind
                == CounterKind::TotalByteTransferred && r@[1].value == total_byte_transferred
                && r@[2].kind == CounterKind::TotalSuccess && r@[2].value == 1,
            response_status == 200 && request_path@ == "/init-tunnel"@ ==> r@.len() == 2
                && r@[1].kind == CounterKind::TotalTunnelInitiated && r@[1].value == 1,
            !(response_status == 200 && (request_path@ == "/proxy"@ || request_path@
                == "/init-tunnel"@)) ==> r@.len() == 1,
    {
        proof {
            broadcast use vstd::string::group_string_axioms;

            reveal_strlit("/proxy");
            reveal_strlit("/init-tunnel");
            assert("/proxy"@.len() == 6);
            assert("/init-tunnel"@.len() == 12);
            assert("/proxy"@ != "/init-tunnel"@);
        }
        let mut r: Vec<CounterUpdate> = Vec::new();
        r.push(CounterUpdate { kind: CounterKind::TotalRequest, value: 1 });
        if response_status == 200 {
            if str_eq(request_path, "/proxy") {
                r.push(
                    CounterUpdate {
                        kind: CounterKind::TotalByteTransferred,
                        value: total_byte_transferred,
                    },
                );
                r.push(CounterUpdate { kind: CounterKind::TotalSuccess, value: 1 });
            } else if str_eq(request_path, "/init-tunnel") {
                r.push(CounterUpdate { kind: CounterKind::TotalTunnelInitiated, value: 1 });
            }
        }
        r
    }
}

} // verus!
