//! The schema: an ordered set of field definitions, each with a name and a
//! capability set. A field may be tokenized for search, stored verbatim for
//! retrieval, or indexed as a typed integer value; asking for typed-value
//! indexing on tokenized free text is a configuration conflict rejected at
//! construction.

use vstd::prelude::*;
use crate::EngineError;

verus! {

/// One field declaration.
pub struct FieldDef {
    pub name: String,
    pub tokenized: bool,
    pub stored: bool,
    pub typed_int: bool,
}

/// Mathematical image of a [`FieldDef`].
pub ghost struct FieldDefView {
    pub name: Seq<char>,
    pub tokenized: bool,
    pub stored: bool,
    pub typed_int: bool,
}

impl View for FieldDef {
    type V = FieldDefView;

    open spec fn view(&self) -> FieldDefView {
        FieldDefView {
            name: self.name@,
            tokenized: self.tokenized,
            stored: self.stored,
            typed_int: self.typed_int,
        }
    }
}

impl DeepView for FieldDef {
    type V = FieldDefView;

    open spec fn deep_view(&self) -> FieldDefView {
        self.view()
    }
}

/// No field both tokenizes free text and indexes a typed value.
pub open spec fn schema_wf(fields: Seq<FieldDefView>) -> bool {
    forall|i: int|
        0 <= i < fields.len() ==> !((#[trigger] fields[i]).tokenized && fields[i].typed_int)
}

/// An immutable schema value, used identically by the builder and the
/// query engine.
pub struct Schema {
    pub fields: Vec<FieldDef>,
}

impl View for Schema {
    type V = Seq<FieldDefView>;

    open spec fn view(&self) -> Seq<FieldDefView> {
        self.fields.deep_view()
    }
}

impl Schema {
    /// Builds a schema from field declarations, rejecting capability
    /// conflicts with a configuration error.
    pub fn build(fields: Vec<FieldDef>) -> (r: Result<Schema, EngineError>)
        ensures
            match r {
                Ok(s) => s@ == fields.deep_view() && schema_wf(fields.deep_view()),
                Err(e) => !schema_wf(fields.deep_view()) && e == EngineError::Configuration,
            },
    {
        let mut i: usize = 0;
        while i < fields.len()
            invariant
                i <= fields.len(),
                forall|k: int|
                    0 <= k < i ==> !((#[trigger] fields.deep_view()[k]).tokenized
                        && fields.deep_view()[k].typed_int),
            decreases fields.len() - i,
        {
            if fields[i].tokenized && fields[i].typed_int {
                proof {
                    assert(fields.deep_view()[i as int].tokenized
                        && fields.deep_view()[i as int].typed_int);
                }
                return Err(EngineError::Configuration);
            }
            i = i + 1;
        }
        Ok(Schema { fields })
    }

    /// Copies the schema.
    pub fn duplicate(&self) -> (r: Schema)
        ensures
            r@ == self@,
    {
        let mut out: Vec<FieldDef> = Vec::new();
        let mut i: usize = 0;
        while i < self.fields.len()
            invariant
                i <= self.fields.len(),
                out.deep_view() =~= self.fields.deep_view().take(i as int),
            decreases self.fields.len() - i,
        {
            let ghost pre = out.deep_view();
            let f = &self.fields[i];
            out.push(FieldDef {
                name: f.name.clone(),
                tokenized: f.tokenized,
                stored: f.stored,
                typed_int: f.typed_int,
            });
            proof {
                assert(out.deep_view() =~= pre.push(self.fields.deep_view()[i as int]));
                assert(self.fields.deep_view().take(i + 1)
                    =~= self.fields.deep_view().take(i as int).push(
                    self.fields.deep_view()[i as int]));
            }
            i = i + 1;
        }
        proof {
            assert(self.fields.deep_view().take(self.fields.deep_view().len() as int)
                =~= self.fields.deep_view());
        }
        Schema { fields: out }
    }

    /// Whether two schemas declare the same fields with the same
    /// capabilities.
    pub fn matches(&self, other: &Schema) -> (r: bool)
        ensures
            r == (self@ == other@),
    {
        if self.fields.len() != other.fields.len() {
            proof {
                assert(self@.len() != other@.len());
            }
            return false;
        }
        let mut i: usize = 0;
        while i < self.fields.len()
            invariant
                i <= self.fields.len(),
                self@.len() == other@.len() == self.fields.len(),
                forall|k: int| 0 <= k < i ==> self@[k] == other@[k],
            decreases self.fields.len() - i,
        {
            let a = &self.fields[i];
            let b = &other.fields[i];
            if !(a.name == b.name && a.tokenized == b.tokenized && a.stored == b.stored
                && a.typed_int == b.typed_int) {
                proof {
                    assert(self@[i as int] != other@[i as int]);
                }
                return false;
            }
            proof {
                assert(self@[i as int] == other@[i as int]);
            }
            i = i + 1;
        }
        proof {
            assert(self@ =~= other@);
        }
        true
    }
}

/// The schema of the job index: `title` and `company` are tokenized and
/// stored, `description` is tokenized only (not stored, to bound index
/// size), and `salary_min` is an indexed typed integer.
pub open spec fn jobs_schema() -> Seq<FieldDefView> {
    seq![
        FieldDefView { name: "title"@, tokenized: true, stored: true, typed_int: false },
        FieldDefView { name: "company"@, tokenized: true, stored: true, typed_int: false },
        FieldDefView { name: "description"@, tokenized: true, stored: false, typed_int: false },
        FieldDefView { name: "salary_min"@, tokenized: false, stored: false, typed_int: true },
    ]
}

/// Builds the schema the job index uses.
pub fn build_schema() -> (s: Schema)
    ensures
        s@ == jobs_schema(),
{
    let mut fields: Vec<FieldDef> = Vec::new();
    fields.push(FieldDef {
        name: "title".to_owned(),
        tokenized: true,
        stored: true,
        typed_int: false,
    });
    fields.push(FieldDef {
        name: "company".to_owned(),
        tokenized: true,
        stored: true,
        typed_int: false,
    });
    fields.push(FieldDef {
        name: "description".to_owned(),
        tokenized: true,
        stored: false,
        typed_int: false,
    });
    fields.push(FieldDef {
        name: "salary_min".to_owned(),
        tokenized: false,
        stored: false,
        typed_int: true,
    });
    let s = Schema { fields };
    proof {
        assert(s@ =~= jobs_schema());
    }
    s
}

} // verus!
