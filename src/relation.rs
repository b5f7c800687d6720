use vstd::prelude::*;

verus! {

/// A table or a view, by name, as a `DROP` statement names it.
#[derive(Debug)]
pub enum Relation {
    Table(String),
    View(String),
}

impl Relation {
    /// The keyword of the relation's kind: `TABLE` or `VIEW`.
    pub fn kind(&self) -> (r: &'static str)
        ensures
            r@ == match self {
                Relation::Table(_) => "TABLE"@,
                Relation::View(_) => "VIEW"@,
            },
    {
        match self {
            Relation::Table(_) => "TABLE",
            Relation::View(_) => "VIEW",
        }
    }

    /// The relation's name.
    pub fn name(&self) -> (r: &str)
        ensures
            r@ == match self {
                Relation::Table(n) => n@,
                Relation::View(n) => n@,
            },
    {
        match self {
            Relation::Table(name) => name.as_str(),
            Relation::View(name) => name.as_str(),
        }
    }
}

} // verus!
