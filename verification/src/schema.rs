//! The knowledge-base document: sections, API methods and objects of one
//! platform version.

use vstd::prelude::*;
use crate::text::{push_str, same_text, string_of};

verus! {

/// The documentation of one platform version.
#[derive(Debug)]
pub struct Document {
    pub version: String,
    pub platform: String,
    pub release_date: Option<String>,
    pub sections: Vec<Section>,
    pub api_methods: Vec<ApiMethod>,
    pub api_objects: Vec<ApiObject>,
    pub relationships: Vec<Relationship>,
}

/// A documentation section.
#[derive(Debug)]
pub struct Section {
    pub id: String,
    pub title: String,
    pub section_type: SectionType,
    pub content: String,
    pub keywords: Vec<String>,
    pub subsections: Vec<Section>,
}

#[derive(Debug, Clone, Copy, PartialEq, Eq, Structural)]
pub enum SectionType {
    Category,
    ApiReference,
    Text,
    QueryLanguage,
}

/// An API method.
#[derive(Debug, Clone)]
pub struct ApiMethod {
    pub name: String,
    pub description: String,
    pub context: ExecutionContext,
    pub parameters: Vec<Parameter>,
    pub return_type: Option<String>,
    pub examples: Vec<Example>,
    pub notes: Vec<String>,
}

/// Where code may run.
#[derive(Debug, Clone, Copy, PartialEq, Eq, Structural)]
pub enum ExecutionContext {
    Client,
    Server,
    Both,
}

/// A method parameter.
#[derive(Debug, Clone)]
pub struct Parameter {
    pub name: String,
    pub param_type: String,
    pub required: bool,
    pub description: String,
}

/// A code example.
#[derive(Debug, Clone)]
pub struct Example {
    pub title: Option<String>,
    pub code: String,
    pub description: Option<String>,
}

/// An API object.
#[derive(Debug, Clone)]
pub struct ApiObject {
    pub name: String,
    pub description: String,
    pub properties: Vec<Property>,
    pub methods: Vec<String>,
}

/// A property of an object.
#[derive(Debug, Clone)]
pub struct Property {
    pub name: String,
    pub property_type: String,
    pub description: String,
    pub readonly: bool,
}

/// A relationship between entities.
#[derive(Debug, Clone)]
pub struct Relationship {
    pub from: String,
    pub to: String,
    pub rel_type: RelationshipType,
    pub description: Option<String>,
}

#[derive(Debug, Clone, Copy, PartialEq, Eq, Structural)]
pub enum RelationshipType {
    Uses,
    Returns,
    Contains,
    Extends,
}

/// What a search hit points at.
#[derive(Debug, Clone)]
pub enum SearchSource {
    Section { version: String, section_id: String, title: String, content: String },
    ApiMethod { version: String, name: String, description: String, context: ExecutionContext },
    ApiObject { version: String, name: String, description: String },
}

/// A search result: the score as shown (two decimals), the source, text
/// fragments and related entities.
#[derive(Debug, Clone)]
pub struct SearchResult {
    pub score: String,
    pub source: SearchSource,
    pub highlights: Vec<String>,
    pub related: Option<Vec<RelatedItem>>,
}

/// An entity related to a search hit.
#[derive(Debug, Clone)]
pub struct RelatedItem {
    pub name: String,
    pub relationship: String,
    pub description: String,
}

/// The ids of a list of sections.
pub open spec fn section_ids(sections: Seq<Section>) -> Seq<Seq<char>> {
    sections.map_values(|s: Section| s.id@)
}

/// Position `j` repeats an id seen before it.
pub open spec fn repeats_earlier(ids: Seq<Seq<char>>, j: int) -> bool {
    exists|k: int| 0 <= k < j && ids[k] == ids[j]
}

/// The first position at or after `j` that repeats an earlier id.
pub open spec fn first_repeat_from(ids: Seq<Seq<char>>, j: int) -> Option<int>
    decreases ids.len() - j,
{
    if j < 0 || j >= ids.len() {
        None
    } else if repeats_earlier(ids, j) {
        Some(j)
    } else {
        first_repeat_from(ids, j + 1)
    }
}

/// Why a document is refused: an empty version, an empty platform, or the
/// first top-level section id that repeats an earlier one — in that order.
pub open spec fn validation_error(d: Document) -> Option<Seq<char>> {
    if d.version@.len() == 0 {
        Some("ru: Версия не может быть пустой, en: Version cannot be empty"@)
    } else if d.platform@.len() == 0 {
        Some("ru: Платформа не может быть пустой, en: Platform cannot be empty"@)
    } else {
        match first_repeat_from(section_ids(d.sections@), 0) {
            Some(j) => Some(
                "ru: Дублирующийся ID секции: "@ + section_ids(d.sections@)[j]
                    + ", en: Duplicate section ID: "@ + section_ids(d.sections@)[j],
            ),
            None => None,
        }
    }
}

impl Document {
    /// Validation: the version and the platform are not empty and top-level
    /// section ids are distinct.
    pub fn validate(&self) -> (res: Result<(), String>)
        ensures
            match res {
                Ok(()) => validation_error(*self) is None,
                Err(m) => validation_error(*self) == Some(m@),
            },
    {
        if self.version.as_str().unicode_len() == 0 {
            return Err(String::from_str("ru: Версия не может быть пустой, en: Version cannot be empty"));
        }
        if self.platform.as_str().unicode_len() == 0 {
            return Err(String::from_str("ru: Платформа не может быть пустой, en: Platform cannot be empty"));
        }
        assert(self.version@.len() != 0 && self.platform@.len() != 0);
        let ghost ids = section_ids(self.sections@);
        let n = self.sections.len();
        let mut j: usize = 0;
        while j < n
            invariant
                0 <= j <= n,
                n == self.sections@.len(),
                ids == section_ids(self.sections@),
                first_repeat_from(ids, 0) == first_repeat_from(ids, j as int),
                self.version@.len() != 0 && self.platform@.len() != 0,
            decreases n - j,
        {
            let mut k: usize = 0;
            let mut dup = false;
            while k < j && !dup
                invariant
                    0 <= k <= j < n,
                    n == self.sections@.len(),
                    ids == section_ids(self.sections@),
                    first_repeat_from(ids, 0) == first_repeat_from(ids, j as int),
                    self.version@.len() != 0 && self.platform@.len() != 0,
                    dup ==> repeats_earlier(ids, j as int),
                    !dup ==> forall|m: int| 0 <= m < k ==> ids[m] != ids[j as int],
                decreases j - k + (if dup { 0int } else { 1int }),
            {
                assert(ids[k as int] == self.sections@[k as int].id@);
                assert(ids[j as int] == self.sections@[j as int].id@);
                if same_text(self.sections[k].id.as_str(), self.sections[j].id.as_str()) {
                    dup = true;
                } else {
                    k = k + 1;
                }
            }
            if dup {
                assert(repeats_earlier(ids, j as int));
                let mut msg: Vec<char> = Vec::new();
                push_str(&mut msg, "ru: Дублирующийся ID секции: ");
                push_str(&mut msg, self.sections[j].id.as_str());
                push_str(&mut msg, ", en: Duplicate section ID: ");
                push_str(&mut msg, self.sections[j].id.as_str());
                assert(ids[j as int] == self.sections@[j as int].id@);
                assert(first_repeat_from(ids, j as int) == Some(j as int));
                assert(msg@ =~= "ru: Дублирующийся ID секции: "@ + ids[j as int]
                    + ", en: Duplicate section ID: "@ + ids[j as int]);
                return Err(string_of(&msg));
            }
            assert(!repeats_earlier(ids, j as int)) by {
                if repeats_earlier(ids, j as int) {
                    let w = choose|w: int| 0 <= w < j && ids[w] == ids[j as int];
                    assert(ids[w] != ids[j as int]);
                }
            }
            j = j + 1;
        }
        Ok(())
    }
}

} // verus!
