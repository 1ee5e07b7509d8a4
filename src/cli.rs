use vstd::prelude::*;

verus! {

/// Settings the program starts with: where the database file lies and the
/// address to listen on.
#[derive(Debug, Clone)]
pub struct Args {
    pub db_path: String,
    pub addr: String,
}

/// The scheme that database addresses start with.
pub open spec fn sqlite_scheme() -> Seq<char> {
    seq!['s', 'q', 'l', 'i', 't', 'e', ':']
}

impl Args {
    /// The address of the database: `sqlite:` and the file's path.
    pub fn get_pool(&self) -> (r: String)
        ensures
            r@ == sqlite_scheme() + self.db_path@,
    {
        proof {
            reveal_strlit("sqlite:");
        }
        let mut r = String::from_str("sqlite:");
        r.append(self.db_path.as_str());
        r
    }
}

} // verus!
