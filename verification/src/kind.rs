use vstd::prelude::*;

use crate::error::Error;
use crate::text::eq_lower;
use crate::text::lower_seq;

verus! {

/// The kinds of symbols that a docset page can stand for.
#[derive(Debug, Clone, Copy, PartialEq, Eq, Structural)]
pub enum EntryType {
    Constant,
    Enum,
    Function,
    Macro,
    Method,
    Module,
    Struct,
    Trait,
    Type,
    Variant,
    Attribute,
}

/// Every known entry kind, in the order the library enumerates them.
pub open spec fn all_entry_types() -> Seq<EntryType> {
    seq![
        EntryType::Constant,
        EntryType::Enum,
        EntryType::Function,
        EntryType::Macro,
        EntryType::Method,
        EntryType::Module,
        EntryType::Struct,
        EntryType::Trait,
        EntryType::Type,
        EntryType::Variant,
        EntryType::Attribute,
    ]
}

/// The storage label of an entry kind, as written into the index store.
pub open spec fn spec_label(t: EntryType) -> Seq<char> {
    match t {
        EntryType::Constant => "Constant"@,
        EntryType::Enum => "Enum"@,
        EntryType::Function => "Function"@,
        EntryType::Macro => "Macro"@,
        EntryType::Method => "Method"@,
        EntryType::Module => "Module"@,
        EntryType::Struct => "Struct"@,
        EntryType::Trait => "Trait"@,
        EntryType::Type => "Type"@,
        EntryType::Variant => "Variant"@,
        EntryType::Attribute => "Attribute"@,
    }
}

/// The kind named by a case-folded kind token, if the token belongs to the
/// fixed vocabulary.
pub open spec fn spec_parse_kind(s: Seq<char>) -> Option<EntryType> {
    let l = lower_seq(s);
    if l == "constant"@ {
        Some(EntryType::Constant)
    } else if l == "enum"@ {
        Some(EntryType::Enum)
    } else if l == "fn"@ || l == "function"@ {
        Some(EntryType::Function)
    } else if l == "macro"@ {
        Some(EntryType::Macro)
    } else if l == "method"@ {
        Some(EntryType::Method)
    } else if l == "module"@ {
        Some(EntryType::Module)
    } else if l == "struct"@ {
        Some(EntryType::Struct)
    } else if l == "trait"@ {
        Some(EntryType::Trait)
    } else if l == "type"@ {
        Some(EntryType::Type)
    } else if l == "variant"@ {
        Some(EntryType::Variant)
    } else if l == "attr"@ || l == "attribute"@ {
        Some(EntryType::Attribute)
    } else {
        None
    }
}

impl EntryType {
    /// Every known entry kind; an empty kind filter is widened to this list.
    pub fn all() -> (r: Vec<EntryType>)
        ensures
            r@ == all_entry_types(),
    {
        let mut r: Vec<EntryType> = Vec::new();
        r.push(EntryType::Constant);
        r.push(EntryType::Enum);
        r.push(EntryType::Function);
        r.push(EntryType::Macro);
        r.push(EntryType::Method);
        r.push(EntryType::Module);
        r.push(EntryType::Struct);
        r.push(EntryType::Trait);
        r.push(EntryType::Type);
        r.push(EntryType::Variant);
        r.push(EntryType::Attribute);
        proof {
            assert(r@ =~= all_entry_types());
        }
        r
    }

    /// The storage label of this kind.
    pub fn label(&self) -> (r: String)
        ensures
            r@ == spec_label(*self),
    {
        match self {
            EntryType::Constant => String::from_str("Constant"),
            EntryType::Enum => String::from_str("Enum"),
            EntryType::Function => String::from_str("Function"),
            EntryType::Macro => String::from_str("Macro"),
            EntryType::Method => String::from_str("Method"),
            EntryType::Module => String::from_str("Module"),
            EntryType::Struct => String::from_str("Struct"),
            EntryType::Trait => String::from_str("Trait"),
            EntryType::Type => String::from_str("Type"),
            EntryType::Variant => String::from_str("Variant"),
            EntryType::Attribute => String::from_str("Attribute"),
        }
    }

    /// Parses a kind token case-insensitively; an unrecognized token is the
    /// structural-assumption violation that aborts an indexing run.
    pub fn parse(s: &str) -> (r: Result<EntryType, Error>)
        ensures
            match r {
                Ok(t) => spec_parse_kind(s@) == Some(t),
                Err(e) => spec_parse_kind(s@) is None && (e matches Error::UnknownEntryType(m)
                    && m@ == s@),
            },
    {
        if eq_lower(s, "constant") {
            Ok(EntryType::Constant)
        } else if eq_lower(s, "enum") {
            Ok(EntryType::Enum)
        } else if eq_lower(s, "fn") || eq_lower(s, "function") {
            Ok(EntryType::Function)
        } else if eq_lower(s, "macro") {
            Ok(EntryType::Macro)
        } else if eq_lower(s, "method") {
            Ok(EntryType::Method)
        } else if eq_lower(s, "module") {
            Ok(EntryType::Module)
        } else if eq_lower(s, "struct") {
            Ok(EntryType::Struct)
        } else if eq_lower(s, "trait") {
            Ok(EntryType::Trait)
        } else if eq_lower(s, "type") {
            Ok(EntryType::Type)
        } else if eq_lower(s, "variant") {
            Ok(EntryType::Variant)
        } else if eq_lower(s, "attr") || eq_lower(s, "attribute") {
            Ok(EntryType::Attribute)
        } else {
            Err(Error::UnknownEntryType(String::from_str(s)))
        }
    }
}

} // verus!
