//! The settings the program runs under.

use vstd::prelude::*;

verus! {

/// What the operator may configure: where the read interface listens,
/// whether to ingest at all, which ledger node to poll, and where the
/// store lives on disk.
#[derive(Clone, Debug)]
pub struct Args {
    /// The port to listen on for the web interface.
    pub port: u16,
    /// The host to listen on for the web interface.
    pub host: String,
    /// If set, do not talk to the network and do not fill the store,
    /// but only serve the already existing data.
    pub dry: bool,
    /// The address of a ledger RPC node.
    pub url: String,
    /// Where to keep the store on disk.
    pub store_path: String,
}

impl Default for Args {
    /// The defaults the command line starts from.
    fn default() -> (args: Args)
        ensures
            args.port == 8989,
            args.host@ == "localhost"@,
            !args.dry,
            args.url@ == "https://api.mainnet-beta.solana.com"@,
            args.store_path@ == ".store"@,
    {
        Args {
            port: 8989,
            host: "localhost".to_owned(),
            dry: false,
            url: "https://api.mainnet-beta.solana.com".to_owned(),
            store_path: ".store".to_owned(),
        }
    }
}

} // verus!
