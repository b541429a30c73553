//! The syntax tree of a contract definition.
use vstd::prelude::*;

verus! {

#[derive(Debug, Clone, Copy, PartialEq, Eq)]
pub struct Position {
    pub line: usize,
    pub col: usize,
}

#[derive(Debug, Clone, PartialEq)]
pub struct StringField {
    pub value: String,
    pub position: Position,
}

#[derive(Debug, Clone, PartialEq)]
pub struct IntField {
    pub value: u64,
    pub position: Position,
}

#[derive(Debug, Clone, PartialEq)]
pub struct AddressField {
    pub value: [u8; 20],
    pub position: Position,
}

#[derive(Debug, Clone, PartialEq)]
pub struct FlagField {
    pub position: Position,
}

#[derive(Debug, Clone, PartialEq)]
pub struct ContractNode {
    pub name: String,
    pub name_position: Position,
    pub symbol: Option<StringField>,
    pub decimals: Option<IntField>,
    pub supply: Option<IntField>,
    pub mintable: Option<FlagField>,
    pub burnable: Option<FlagField>,
    pub capped: Option<IntField>,
    pub owner: Option<AddressField>,
}

/// A position as numbers.
pub struct Pos {
    pub line: nat,
    pub col: nat,
}

pub open spec fn pos_view(p: Position) -> Pos {
    Pos { line: p.line as nat, col: p.col as nat }
}

/// The mathematical value of a contract: each optional field with its value
/// and where it was declared.
pub struct ContractView {
    pub name: Seq<char>,
    pub name_position: Pos,
    pub symbol: Option<(Seq<char>, Pos)>,
    pub decimals: Option<(u64, Pos)>,
    pub supply: Option<(u64, Pos)>,
    pub mintable: Option<Pos>,
    pub burnable: Option<Pos>,
    pub capped: Option<(u64, Pos)>,
    pub owner: Option<(Seq<u8>, Pos)>,
}

pub open spec fn string_field_view(f: Option<StringField>) -> Option<(Seq<char>, Pos)> {
    match f {
        Some(f) => Some((f.value@, pos_view(f.position))),
        None => None,
    }
}

pub open spec fn int_field_view(f: Option<IntField>) -> Option<(u64, Pos)> {
    match f {
        Some(f) => Some((f.value, pos_view(f.position))),
        None => None,
    }
}

pub open spec fn flag_field_view(f: Option<FlagField>) -> Option<Pos> {
    match f {
        Some(f) => Some(pos_view(f.position)),
        None => None,
    }
}

pub open spec fn address_field_view(f: Option<AddressField>) -> Option<(Seq<u8>, Pos)> {
    match f {
        Some(f) => Some((f.value@, pos_view(f.position))),
        None => None,
    }
}

impl View for ContractNode {
    type V = ContractView;

    open spec fn view(&self) -> ContractView {
        ContractView {
            name: self.name@,
            name_position: pos_view(self.name_position),
            symbol: string_field_view(self.symbol),
            decimals: int_field_view(self.decimals),
            supply: int_field_view(self.supply),
            mintable: flag_field_view(self.mintable),
            burnable: flag_field_view(self.burnable),
            capped: int_field_view(self.capped),
            owner: address_field_view(self.owner),
        }
    }
}

} // verus!
