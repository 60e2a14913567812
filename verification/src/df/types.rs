use crate::text::same_text;
use crate::types::UrlTyped;
use vstd::prelude::*;

verus! {

/// The classes of devil fruit.
#[derive(Debug, Clone, Copy, PartialEq, Eq, Structural, Hash)]
pub enum DfType {
    Logia,
    Zoan,
    Paramecia,
    Undetermined,
}

impl Default for DfType {
    fn default() -> (r: Self)
        ensures
            r == DfType::Undetermined,
    {
        DfType::Undetermined
    }
}

impl DfType {
    /// The name of the class.
    pub open spec fn name(self) -> Seq<char> {
        match self {
            DfType::Logia => "Logia"@,
            DfType::Zoan => "Zoan"@,
            DfType::Paramecia => "Paramecia"@,
            DfType::Undetermined => "Undetermined"@,
        }
    }

    /// The selector of the anchor that heads the class's list of fruits on its page.
    pub open spec fn list_anchor(self) -> Seq<char> {
        match self {
            DfType::Logia => "#Logia-Types"@,
            DfType::Zoan => "#List_of_Zoan-Type_Fruits"@,
            DfType::Paramecia => "#Paramecia-Type_Fruits"@,
            DfType::Undetermined => Seq::empty(),
        }
    }

    /// The class that `name` names, if it names one.
    pub open spec fn named(name: Seq<char>) -> Option<DfType> {
        if name == "Logia"@ {
            Some(DfType::Logia)
        } else if name == "Zoan"@ {
            Some(DfType::Zoan)
        } else if name == "Paramecia"@ {
            Some(DfType::Paramecia)
        } else if name == "Undetermined"@ {
            Some(DfType::Undetermined)
        } else {
            None
        }
    }

    /// The selector of the anchor that heads the class's list of fruits on its page.
    pub fn id_for_fruit_list(&self) -> (r: String)
        ensures
            r@ == self.list_anchor(),
    {
        match self {
            DfType::Logia => "#Logia-Types".to_owned(),
            DfType::Zoan => "#List_of_Zoan-Type_Fruits".to_owned(),
            DfType::Paramecia => "#Paramecia-Type_Fruits".to_owned(),
            DfType::Undetermined => String::new(),
        }
    }

    /// The name of the class, as text.
    pub fn to_text(&self) -> (r: String)
        ensures
            r@ == self.name(),
    {
        match self {
            DfType::Logia => "Logia".to_owned(),
            DfType::Zoan => "Zoan".to_owned(),
            DfType::Paramecia => "Paramecia".to_owned(),
            DfType::Undetermined => "Undetermined".to_owned(),
        }
    }

    /// The class that `name` names, if it names one.
    pub fn from_name(name: &str) -> (r: Option<DfType>)
        ensures
            r == DfType::named(name@),
    {
        if same_text(name, "Logia") {
            Some(DfType::Logia)
        } else if same_text(name, "Zoan") {
            Some(DfType::Zoan)
        } else if same_text(name, "Paramecia") {
            Some(DfType::Paramecia)
        } else if same_text(name, "Undetermined") {
            Some(DfType::Undetermined)
        } else {
            None
        }
    }

    /// Every class, in the order in which they are declared.
    pub fn all() -> (r: Vec<DfType>)
        ensures
            r@ == seq![DfType::Logia, DfType::Zoan, DfType::Paramecia, DfType::Undetermined],
    {
        let mut v: Vec<DfType> = Vec::new();
        v.push(DfType::Logia);
        v.push(DfType::Zoan);
        v.push(DfType::Paramecia);
        v.push(DfType::Undetermined);
        v
    }
}

impl UrlTyped for DfType {
    open spec fn path(&self) -> Seq<char> {
        match self {
            DfType::Logia => "/wiki/Logia"@,
            DfType::Zoan => "/wiki/Zoan"@,
            DfType::Paramecia => "/wiki/Paramecia"@,
            DfType::Undetermined => Seq::empty(),
        }
    }

    fn get_path(&self) -> (r: String) {
        match self {
            DfType::Logia => "/wiki/Logia".to_owned(),
            DfType::Zoan => "/wiki/Zoan".to_owned(),
            DfType::Paramecia => "/wiki/Paramecia".to_owned(),
            DfType::Undetermined => String::new(),
        }
    }
}

/// The kinds of Zoan fruit that the wiki lists apart.
#[derive(Debug, Clone, Copy, PartialEq, Eq, Structural, Hash)]
pub enum DfSubType {
    AncientZoan,
    MythicalZoan,
}

impl DfSubType {
    /// The name of the kind.
    pub open spec fn name(self) -> Seq<char> {
        match self {
            DfSubType::AncientZoan => "AncientZoan"@,
            DfSubType::MythicalZoan => "MythicalZoan"@,
        }
    }

    /// The selector of the anchor that heads the kind's list of fruits.
    pub open spec fn list_anchor(self) -> Seq<char> {
        match self {
            DfSubType::AncientZoan => "#Ancient_Zoan"@,
            DfSubType::MythicalZoan => "#Mythical_Zoan"@,
        }
    }

    /// The selector of the anchor that heads the kind's list of fruits.
    pub fn id_for_fruit_list(&self) -> (r: String)
        ensures
            r@ == self.list_anchor(),
    {
        match self {
            DfSubType::AncientZoan => "#Ancient_Zoan".to_owned(),
            DfSubType::MythicalZoan => "#Mythical_Zoan".to_owned(),
        }
    }

    /// The name of the kind, as text.
    pub fn to_text(&self) -> (r: String)
        ensures
            r@ == self.name(),
    {
        match self {
            DfSubType::AncientZoan => "AncientZoan".to_owned(),
            DfSubType::MythicalZoan => "MythicalZoan".to_owned(),
        }
    }
}

impl UrlTyped for DfSubType {
    open spec fn path(&self) -> Seq<char> {
        "/wiki/Zoan"@
    }

    fn get_path(&self) -> (r: String) {
        "/wiki/Zoan".to_owned()
    }
}

/// Something that belongs to a class of devil fruit.
pub trait HasDevilFruit {
    /// The class, as a value of specifications.
    spec fn class(&self) -> DfType;

    fn df_type(&self) -> (r: DfType)
        ensures
            r == self.class(),
    ;
}

} // verus!
