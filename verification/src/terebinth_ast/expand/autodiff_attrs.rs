//! The attributes of automatic differentiation: in which mode a function is
//! differentiated and how each of its inputs and its result take part.

use vstd::prelude::*;

use crate::text::str_equal;

verus! {

/// The mode of differentiation.
#[derive(Clone, Copy, Eq, PartialEq, Debug, Structural)]
pub enum DiffMode {
    Error,
    Source,
    Forward,
    Reverse,
}

/// How an input or a result takes part in differentiation.
#[derive(Clone, Copy, Eq, PartialEq, Debug, Structural)]
pub enum DiffActivity {
    NoActivity,
    Const,
    Active,
    ActiveOnly,
    Dual,
    DualOnly,
    Duplicated,
    DuplicatedOnly,
    FakeActivitySize,
}

/// A function to differentiate, the name of its derivative, and how.
#[derive(Debug)]
pub struct AutoDiffItem {
    pub source: String,
    pub target: String,
    pub attrs: AutoDiffAttrs,
}

/// How a function is differentiated: the mode, and the activity of its
/// result and of each input.
#[derive(Debug)]
pub struct AutoDiffAttrs {
    pub mode: DiffMode,
    pub ret_activity: DiffActivity,
    pub input_activity: Vec<DiffActivity>,
}

/// The name under which a mode is written.
pub open spec fn mode_name(mode: DiffMode) -> Seq<char> {
    match mode {
        DiffMode::Error => "Error"@,
        DiffMode::Source => "Source"@,
        DiffMode::Forward => "Forward"@,
        DiffMode::Reverse => "Reverse"@,
    }
}

/// The name under which an activity is written.
pub open spec fn activity_name(activity: DiffActivity) -> Seq<char> {
    match activity {
        DiffActivity::NoActivity => "None"@,
        DiffActivity::Const => "Const"@,
        DiffActivity::Active => "Active"@,
        DiffActivity::ActiveOnly => "ActiveOnly"@,
        DiffActivity::Dual => "Dual"@,
        DiffActivity::DualOnly => "DualOnly"@,
        DiffActivity::Duplicated => "Duplicated"@,
        DiffActivity::DuplicatedOnly => "DuplicatedOnly"@,
        DiffActivity::FakeActivitySize => "FakeActivitySize"@,
    }
}

/// Which activities a result may have in each mode: none at all always;
/// otherwise dual or constant ones forward, and active or constant ones in
/// reverse.
pub open spec fn ret_activity_ok(mode: DiffMode, activity: DiffActivity) -> bool {
    activity == DiffActivity::NoActivity || match mode {
        DiffMode::Error | DiffMode::Source => false,
        DiffMode::Forward => activity == DiffActivity::Dual || activity == DiffActivity::DualOnly
            || activity == DiffActivity::Const,
        DiffMode::Reverse => activity == DiffActivity::Const || activity == DiffActivity::Active
            || activity == DiffActivity::ActiveOnly,
    }
}

/// Which activities an input may have in each mode: dual or constant ones
/// forward; active, duplicated or constant ones in reverse.
pub open spec fn input_activity_ok(mode: DiffMode, activity: DiffActivity) -> bool {
    match mode {
        DiffMode::Error | DiffMode::Source => false,
        DiffMode::Forward => activity == DiffActivity::Dual || activity == DiffActivity::DualOnly
            || activity == DiffActivity::Const,
        DiffMode::Reverse => activity == DiffActivity::Active || activity == DiffActivity::ActiveOnly
            || activity == DiffActivity::Duplicated || activity == DiffActivity::DuplicatedOnly
            || activity == DiffActivity::Const,
    }
}

impl DiffMode {
    pub fn is_rev(&self) -> (r: bool)
        ensures
            r == (*self == DiffMode::Reverse),
    {
        *self == DiffMode::Reverse
    }

    pub fn is_fwd(&self) -> (r: bool)
        ensures
            r == (*self == DiffMode::Forward),
    {
        *self == DiffMode::Forward
    }

    /// The name under which the mode is written.
    pub fn to_display_string(&self) -> (r: String)
        ensures
            r@ == mode_name(*self),
    {
        match self {
            DiffMode::Error => String::from_str("Error"),
            DiffMode::Source => String::from_str("Source"),
            DiffMode::Forward => String::from_str("Forward"),
            DiffMode::Reverse => String::from_str("Reverse"),
        }
    }

    /// The mode written `s`, if any.
    pub fn from_str(s: &str) -> (r: Result<DiffMode, ()>)
        ensures
            r matches Ok(m) ==> mode_name(m) == s@,
            r is Err ==> forall|m: DiffMode| mode_name(m) != s@,
    {
        if str_equal(s, "Error") {
            proof { reveal_strlit("Error"); }
            Ok(DiffMode::Error)
        } else if str_equal(s, "Source") {
            proof { reveal_strlit("Source"); }
            Ok(DiffMode::Source)
        } else if str_equal(s, "Forward") {
            proof { reveal_strlit("Forward"); }
            Ok(DiffMode::Forward)
        } else if str_equal(s, "Reverse") {
            proof { reveal_strlit("Reverse"); }
            Ok(DiffMode::Reverse)
        } else {
            proof {
                reveal_strlit("Error");
                reveal_strlit("Source");
                reveal_strlit("Forward");
                reveal_strlit("Reverse");
            }
            Err(())
        }
    }
}

impl DiffActivity {
    /// The name under which the activity is written.
    pub fn to_display_string(&self) -> (r: String)
        ensures
            r@ == activity_name(*self),
    {
        match self {
            DiffActivity::NoActivity => String::from_str("None"),
            DiffActivity::Const => String::from_str("Const"),
            DiffActivity::Active => String::from_str("Active"),
            DiffActivity::ActiveOnly => String::from_str("ActiveOnly"),
            DiffActivity::Dual => String::from_str("Dual"),
            DiffActivity::DualOnly => String::from_str("DualOnly"),
            DiffActivity::Duplicated => String::from_str("Duplicated"),
            DiffActivity::DuplicatedOnly => String::from_str("DuplicatedOnly"),
            DiffActivity::FakeActivitySize => String::from_str("FakeActivitySize"),
        }
    }

    /// The activity written `s`, if any. The placeholder activity that
    /// counts the activities has no written form.
    pub fn from_str(s: &str) -> (r: Result<DiffActivity, ()>)
        ensures
            r matches Ok(a) ==> activity_name(a) == s@ && a != DiffActivity::FakeActivitySize,
            r is Err ==> forall|a: DiffActivity| a != DiffActivity::FakeActivitySize ==> activity_name(a) != s@,
    {
        proof {
            reveal_strlit("None");
            reveal_strlit("Active");
            reveal_strlit("ActiveOnly");
            reveal_strlit("Const");
            reveal_strlit("Dual");
            reveal_strlit("DualOnly");
            reveal_strlit("Duplicated");
            reveal_strlit("DuplicatedOnly");
        }
        if str_equal(s, "None") {
            Ok(DiffActivity::NoActivity)
        } else if str_equal(s, "Active") {
            Ok(DiffActivity::Active)
        } else if str_equal(s, "ActiveOnly") {
            Ok(DiffActivity::ActiveOnly)
        } else if str_equal(s, "Const") {
            Ok(DiffActivity::Const)
        } else if str_equal(s, "Dual") {
            Ok(DiffActivity::Dual)
        } else if str_equal(s, "DualOnly") {
            Ok(DiffActivity::DualOnly)
        } else if str_equal(s, "Duplicated") {
            Ok(DiffActivity::Duplicated)
        } else if str_equal(s, "DuplicatedOnly") {
            Ok(DiffActivity::DuplicatedOnly)
        } else {
            Err(())
        }
    }
}

/// Whether a result of activity `activity` may be differentiated in mode `mode`.
pub fn valid_ret_activity(mode: DiffMode, activity: DiffActivity) -> (r: bool)
    ensures
        r == ret_activity_ok(mode, activity),
{
    if activity == DiffActivity::NoActivity {
        return true;
    }
    match mode {
        DiffMode::Error => false,
        DiffMode::Source => false,
        DiffMode::Forward => {
            activity == DiffActivity::Dual || activity == DiffActivity::DualOnly || activity
                == DiffActivity::Const
        },
        DiffMode::Reverse => {
            activity == DiffActivity::Const || activity == DiffActivity::Active || activity
                == DiffActivity::ActiveOnly
        },
    }
}

/// Whether an input of activity `activity` may be differentiated in mode `mode`.
pub fn valid_input_activity(mode: DiffMode, activity: DiffActivity) -> (r: bool)
    ensures
        r == input_activity_ok(mode, activity),
{
    match mode {
        DiffMode::Error => false,
        DiffMode::Source => false,
        DiffMode::Forward => {
            matches!(activity, DiffActivity::Dual | DiffActivity::DualOnly | DiffActivity::Const)
        },
        DiffMode::Reverse => {
            matches!(
                activity,
                DiffActivity::Active | DiffActivity::ActiveOnly | DiffActivity::Duplicated
                    | DiffActivity::DuplicatedOnly | DiffActivity::Const
            )
        },
    }
}

impl AutoDiffAttrs {
    pub fn has_ret_activity(&self) -> (r: bool)
        ensures
            r == (self.ret_activity != DiffActivity::NoActivity),
    {
        self.ret_activity != DiffActivity::NoActivity
    }

    pub fn has_active_only_ret(&self) -> (r: bool)
        ensures
            r == (self.ret_activity == DiffActivity::ActiveOnly),
    {
        self.ret_activity == DiffActivity::ActiveOnly
    }

    /// The attributes of a function that could not be differentiated.
    pub fn error() -> (r: AutoDiffAttrs)
        ensures
            r.mode == DiffMode::Error,
            r.ret_activity == DiffActivity::NoActivity,
            r.input_activity@.len() == 0,
    {
        AutoDiffAttrs { mode: DiffMode::Error, ret_activity: DiffActivity::NoActivity, input_activity: Vec::new() }
    }

    /// The attributes of the function being differentiated.
    pub fn source() -> (r: AutoDiffAttrs)
        ensures
            r.mode == DiffMode::Source,
            r.ret_activity == DiffActivity::NoActivity,
            r.input_activity@.len() == 0,
    {
        AutoDiffAttrs { mode: DiffMode::Source, ret_activity: DiffActivity::NoActivity, input_activity: Vec::new() }
    }

    pub fn is_active(&self) -> (r: bool)
        ensures
            r == (self.mode != DiffMode::Error),
    {
        self.mode != DiffMode::Error
    }

    pub fn is_source(&self) -> (r: bool)
        ensures
            r == (self.mode == DiffMode::Source),
    {
        self.mode == DiffMode::Source
    }

    /// Whether a derivative is to be made: the mode is forward or reverse.
    pub fn apply_autodiff(&self) -> (r: bool)
        ensures
            r == (self.mode == DiffMode::Forward || self.mode == DiffMode::Reverse),
    {
        !matches!(self.mode, DiffMode::Error | DiffMode::Source)
    }

    /// The item that differentiates `source` into `target` with these attributes.
    pub fn into_item(self, source: String, target: String) -> (r: AutoDiffItem)
        ensures
            r.source == source,
            r.target == target,
            r.attrs == self,
    {
        AutoDiffItem { source, target, attrs: self }
    }
}

impl AutoDiffItem {
    /// `Differentiating <source> -> <target>`, as the item is shown.
    pub fn to_display_string(&self) -> (r: String)
        ensures
            r@ == "Differentiating "@ + self.source@ + " -> "@ + self.target@,
    {
        let mut out = String::from_str("Differentiating ");
        out.append(self.source.as_str());
        out.append(" -> ");
        out.append(self.target.as_str());
        out
    }
}

/// No two modes are written alike, so the name of a mode, read back with
/// [`DiffMode::from_str`], gives that mode again.
pub proof fn lemma_mode_name_injective(m: DiffMode, n: DiffMode)
    requires
        mode_name(m) == mode_name(n),
    ensures
        m == n,
{
    reveal_strlit("Error");
    reveal_strlit("Source");
    reveal_strlit("Forward");
    reveal_strlit("Reverse");
    assert(mode_name(m)[0] == mode_name(n)[0]);
    match m {
        DiffMode::Error => assert(mode_name(m)[0] == 'E'),
        DiffMode::Source => assert(mode_name(m)[0] == 'S'),
        DiffMode::Forward => assert(mode_name(m)[0] == 'F'),
        DiffMode::Reverse => assert(mode_name(m)[0] == 'R'),
    }
}

/// No two activities are written alike, so the name of an activity, read
/// back with [`DiffActivity::from_str`], gives that activity again.
pub proof fn lemma_activity_name_injective(a: DiffActivity, b: DiffActivity)
    requires
        activity_name(a) == activity_name(b),
    ensures
        a == b,
{
    reveal_strlit("None");
    reveal_strlit("Const");
    reveal_strlit("Active");
    reveal_strlit("ActiveOnly");
    reveal_strlit("Dual");
    reveal_strlit("DualOnly");
    reveal_strlit("Duplicated");
    reveal_strlit("DuplicatedOnly");
    reveal_strlit("FakeActivitySize");
    let x = activity_name(a);
    assert(x.len() == activity_name(b).len());
    assert(x[0] == activity_name(b)[0]);
    assert(x[x.len() - 1] == activity_name(b)[x.len() - 1]);
}

/// What the activity checks read of a type: whether it is a raw pointer, a
/// reference, or something else.
#[derive(Clone, Copy, Eq, PartialEq, Debug, Structural)]
pub enum TyIndirection {
    Ptr,
    Ref,
    Other,
}

/// Whether a value of a type of indirection `ty` may have the activity
/// `activity`: constant, dual and active ones always; duplicated ones only
/// through a pointer or a reference.
pub fn valid_ty_for_activity(ty: TyIndirection, activity: DiffActivity) -> (r: bool)
    ensures
        r == (activity == DiffActivity::Const || activity == DiffActivity::Dual || activity
            == DiffActivity::DualOnly || activity == DiffActivity::Active || activity
            == DiffActivity::ActiveOnly || ((ty == TyIndirection::Ptr || ty == TyIndirection::Ref) && (
        activity == DiffActivity::Duplicated || activity == DiffActivity::DuplicatedOnly))),
{
    if matches!(activity, DiffActivity::Const) {
        return true;
    }
    if matches!(activity, DiffActivity::Dual | DiffActivity::DualOnly) {
        return true;
    }
    if matches!(activity, DiffActivity::Active | DiffActivity::ActiveOnly) {
        return true;
    }
    matches!(ty, TyIndirection::Ptr | TyIndirection::Ref) && matches!(
        activity,
        DiffActivity::Duplicated | DiffActivity::DuplicatedOnly
    )
}

} // verus!
