//! The rubric: criteria in marking order, each with its point-weighted choices.

use vstd::prelude::*;

verus! {

/// The value of a [`Choice`]: its label and what it is worth.
pub struct ChoiceView {
    pub label: Seq<char>,
    pub points: int,
}

/// The value of a [`Criterion`]: its prompt and its choices in order.
pub struct CriterionView {
    pub prompt: Seq<char>,
    pub choices: Seq<ChoiceView>,
}

/// The value of a [`Scheme`]: its criteria in marking order.
pub struct SchemeView {
    pub criteria: Seq<CriterionView>,
}

impl SchemeView {
    /// A scheme has a criterion, and each criterion has a choice.
    pub open spec fn well_formed(self) -> bool {
        &&& self.criteria.len() > 0
        &&& forall|i: int| 0 <= i < self.criteria.len() ==> (#[trigger] self.criteria[i]).choices.len() > 0
    }
}

/// One outcome of a criterion.
#[derive(Clone, Debug, PartialEq, Eq)]
pub struct Choice {
    pub label: String,
    pub points: i64,
}

impl View for Choice {
    type V = ChoiceView;

    open spec fn view(&self) -> ChoiceView {
        ChoiceView { label: self.label@, points: self.points as int }
    }
}

/// The values of a run of choices.
pub open spec fn choice_views(choices: Seq<Choice>) -> Seq<ChoiceView> {
    Seq::new(choices.len(), |i: int| choices[i]@)
}

/// One gradable aspect of the work. It always has a choice.
#[derive(Debug, PartialEq, Eq)]
pub struct Criterion {
    pub(crate) prompt: String,
    pub(crate) choices: Vec<Choice>,
}

impl View for Criterion {
    type V = CriterionView;

    open(crate) spec fn view(&self) -> CriterionView {
        CriterionView { prompt: self.prompt@, choices: choice_views(self.choices@) }
    }
}

impl Criterion {
    #[verifier::type_invariant]
    spec fn has_a_choice(&self) -> bool {
        self.choices@.len() > 0
    }

    /// A criterion with this prompt and these choices; none where there is no
    /// choice.
    pub fn new(prompt: String, choices: Vec<Choice>) -> (made: Option<Criterion>)
        ensures
            made is Some <==> choices@.len() > 0,
            made matches Some(c) ==> c@ == (CriterionView {
                prompt: prompt@,
                choices: choice_views(choices@),
            }),
    {
        if choices.len() == 0 {
            None
        } else {
            Some(Criterion { prompt, choices })
        }
    }

    /// What the marker is asked.
    pub fn prompt(&self) -> (prompt: &str)
        ensures
            prompt@ == self@.prompt,
    {
        self.prompt.as_str()
    }

    /// The choices, in order; there is at least one.
    pub fn choices(&self) -> (choices: &[Choice])
        ensures
            choice_views(choices@) == self@.choices,
            choices@.len() > 0,
    {
        proof {
            use_type_invariant(self);
        }
        self.choices.as_slice()
    }
}

/// The values of a run of criteria.
pub open spec fn criterion_views(criteria: Seq<Criterion>) -> Seq<CriterionView> {
    Seq::new(criteria.len(), |i: int| criteria[i]@)
}

/// A rubric: criteria in marking order. It always has a criterion, and each
/// of them a choice.
#[derive(Debug, PartialEq, Eq)]
pub struct Scheme {
    pub(crate) criteria: Vec<Criterion>,
}

impl View for Scheme {
    type V = SchemeView;

    open(crate) spec fn view(&self) -> SchemeView {
        SchemeView { criteria: criterion_views(self.criteria@) }
    }
}

impl Scheme {
    #[verifier::type_invariant]
    spec fn is_well_formed(&self) -> bool {
        self@.well_formed()
    }

    /// A scheme of these criteria in this order; none where there is no
    /// criterion.
    pub fn new(criteria: Vec<Criterion>) -> (made: Option<Scheme>)
        ensures
            made is Some <==> criteria@.len() > 0,
            made matches Some(s) ==> s@ == (SchemeView { criteria: criterion_views(criteria@) }),
    {
        if criteria.len() == 0 {
            return None;
        }
        // That a criterion has a choice is known of one criterion at a time.
        let mut i: usize = 0;
        while i < criteria.len()
            invariant
                i <= criteria@.len(),
                forall|j: int| 0 <= j < i ==> (#[trigger] criteria@[j])@.choices.len() > 0,
            decreases criteria@.len() - i,
        {
            let criterion = &criteria[i];
            proof {
                use_type_invariant(criterion);
            }
            i += 1;
        }
        Some(Scheme { criteria })
    }

    /// The criteria, in marking order; there is at least one, and each has
    /// a choice.
    pub fn criteria(&self) -> (criteria: &[Criterion])
        ensures
            criterion_views(criteria@) == self@.criteria,
            self@.well_formed(),
    {
        proof {
            use_type_invariant(self);
        }
        self.criteria.as_slice()
    }
}

} // verus!
