use vstd::prelude::*;

verus! {

/// Where the server listens.
pub struct Config {
    pub address: [u8; 4],
    pub port: u16,
}

impl Default for Config {
    /// Listens on 127.0.0.1, port 25565.
    fn default() -> (r: Self)
        ensures
            r.address@ == seq![127u8, 0u8, 0u8, 1u8],
            r.port == 25565,
    {
        let r = Config { address: [127, 0, 0, 1], port: 25565u16 };
        assert(r.address@ =~= seq![127u8, 0u8, 0u8, 1u8]);
        r
    }
}

} // verus!
