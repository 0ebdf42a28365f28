//! Per-market endpoints.

use crate::decimal;
use crate::domain::ids::MarketKind;
use crate::exchange::error::Error;
use crate::text;
use vstd::prelude::*;

verus! {

/// The hosts and paths of one market.
#[derive(Clone, Copy, Debug)]
pub struct Endpoints {
    pub rest: &'static str,
    pub ws: &'static str,
    pub exchange_info: &'static str,
    pub depth: &'static str,
}

impl Endpoints {
    pub fn spot() -> (r: Endpoints)
        ensures
            r.rest@ == "https://api.binance.com"@,
            r.ws@ == "wss://stream.binance.com:9443/ws"@,
            r.exchange_info@ == "/api/v3/exchangeInfo"@,
            r.depth@ == "/api/v3/depth"@,
    {
        Endpoints {
            rest: "https://api.binance.com",
            ws: "wss://stream.binance.com:9443/ws",
            exchange_info: "/api/v3/exchangeInfo",
            depth: "/api/v3/depth",
        }
    }

    pub fn usd_m() -> (r: Endpoints)
        ensures
            r.rest@ == "https://fapi.binance.com"@,
            r.ws@ == "wss://fstream.binance.com/ws"@,
            r.exchange_info@ == "/fapi/v1/exchangeInfo"@,
            r.depth@ == "/fapi/v1/depth"@,
    {
        Endpoints {
            rest: "https://fapi.binance.com",
            ws: "wss://fstream.binance.com/ws",
            exchange_info: "/fapi/v1/exchangeInfo",
            depth: "/fapi/v1/depth",
        }
    }

    /// The endpoints of a market. Coin-margined futures are a third host and a different
    /// contract model; they are refused rather than silently routed to the USD-M endpoints.
    pub fn for_market(market: MarketKind) -> (r: Result<Endpoints, Error>)
        ensures
            match market {
                MarketKind::Spot => r matches Ok(e) && e.rest@ == "https://api.binance.com"@
                    && e.ws@ == "wss://stream.binance.com:9443/ws"@ && e.exchange_info@
                    == "/api/v3/exchangeInfo"@ && e.depth@ == "/api/v3/depth"@,
                MarketKind::LinearPerp => r matches Ok(e) && e.rest@ == "https://fapi.binance.com"@
                    && e.ws@ == "wss://fstream.binance.com/ws"@ && e.exchange_info@
                    == "/fapi/v1/exchangeInfo"@ && e.depth@ == "/fapi/v1/depth"@,
                MarketKind::InversePerp => r matches Err(Error::Unsupported { what, market: m })
                    && what@ == "coin-margined futures"@ && m == market,
            },
    {
        match market {
            MarketKind::Spot => Ok(Endpoints::spot()),
            MarketKind::LinearPerp => Ok(Endpoints::usd_m()),
            MarketKind::InversePerp => Err(
                Error::Unsupported { what: "coin-margined futures", market },
            ),
        }
    }

    pub fn exchange_info_url(&self) -> (r: String)
        ensures
            r@ == self.rest@ + self.exchange_info@,
    {
        let mut r = self.rest.to_owned();
        r.append(self.exchange_info);
        r
    }

    pub fn depth_url(&self, symbol: &str, limit: u32) -> (r: String)
        ensures
            r@ == self.rest@ + self.depth@ + "?symbol="@ + symbol@ + "&limit="@ + decimal::digits(
                limit as int,
            ),
    {
        let mut r = self.rest.to_owned();
        r.append(self.depth);
        r.append("?symbol=");
        r.append(symbol);
        r.append("&limit=");
        r.append(text::unsigned(limit as u64).as_str());
        r
    }
}

/// Whether the venue accepts a depth limit.
pub open spec fn legal(limit: int) -> bool {
    limit == 5 || limit == 10 || limit == 20 || limit == 50 || limit == 100 || limit == 500
        || limit == 1000 || limit == 5000
}

/// Depth snapshots only accept a fixed set of limits; anything else is refused. The request is
/// rounded up to the next legal value rather than failing, and down to the largest beyond it.
pub fn legal_depth_limit(requested: u32) -> (r: u32)
    ensures
        legal(r as int),
        requested <= 5000 ==> requested <= r,
        requested <= 5000 ==> forall|l: int| #[trigger] legal(l) && requested <= l ==> r <= l,
        requested > 5000 ==> r == 5000,
        requested == 5 || requested == 10 || requested == 20 || requested == 50 || requested == 100
            || requested == 500 || requested == 1000 || requested == 5000 ==> r == requested,
        r == 5 || r == 10 || r == 20 || r == 50 || r == 100 || r == 500 || r == 1000 || r == 5000,
{
    if requested <= 5 {
        5
    } else if requested <= 10 {
        10
    } else if requested <= 20 {
        20
    } else if requested <= 50 {
        50
    } else if requested <= 100 {
        100
    } else if requested <= 500 {
        500
    } else if requested <= 1000 {
        1000
    } else {
        5000
    }
}

} // verus!
