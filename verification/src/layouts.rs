//! Merging types: what a unit's types are interned as in the program, where
//! their layouts know more of them than their descriptions.

use crate::ir;
use crate::ir::{copy_desc, desc_eq, DescView, TypeDesc, TypeId};
use crate::text::str_eq;
use vstd::prelude::*;

verus! {

/// A type of a unit: its shape, and for an aggregate the fields of its layout
/// with the types they have there. Completing a nested tag rewrites the
/// layout, not the shape.
#[derive(Debug, PartialEq, Eq)]
pub struct TypeInfo {
    pub desc: TypeDesc,
    pub layout: Vec<(String, TypeId)>,
}

/// The types of a unit, by their numbers.
#[derive(Debug, PartialEq, Eq)]
pub struct UnitTypes {
    pub all: Vec<TypeInfo>,
}

/// The fields of an aggregate, in its shape.
pub open spec fn fields_of(d: DescView) -> Option<Seq<(Seq<char>, DescView)>> {
    match d {
        DescView::Struct { fields, .. } => Some(fields),
        DescView::Union { fields, .. } => Some(fields),
        _ => None,
    }
}

impl UnitTypes {
    /// Every layout speaks of types that exist.
    pub open spec fn wf(&self) -> bool {
        forall|i: int, k: int|
            0 <= i < self.all@.len() && 0 <= k < self.all@[i].layout@.len() ==> (
            #[trigger] self.all@[i].layout@[k]).1.0 < self.all@.len()
    }

    /// The fields of a type as its layout has them.
    pub open spec fn layout_fields(&self, i: int) -> Seq<(Seq<char>, DescView)> {
        self.all@[i].layout@.map_values(
            |f: (String, TypeId)| (f.0@, self.all@[f.1.0 as int].desc@),
        )
    }

    /// The layout still spells the fields of the shape.
    pub open spec fn spells(&self, i: int) -> bool {
        fields_of(self.all@[i].desc@) == Some(self.layout_fields(i))
    }

    /// An aggregate that lists its fields.
    pub open spec fn is_complete(&self, i: int) -> bool {
        fields_of(self.all@[i].desc@) matches Some(fields) && fields.len() > 0
    }

    /// The shape with the fields of the layout.
    pub open spec fn rebuilt(&self, i: int) -> DescView {
        match self.all@[i].desc@ {
            DescView::Struct { name, .. } => DescView::Struct {
                name,
                fields: self.layout_fields(i),
            },
            DescView::Union { name, .. } => DescView::Union {
                name,
                fields: self.layout_fields(i),
            },
            other => other,
        }
    }

    /// What the type is interned as: its shape, and for an aggregate with
    /// fields the one its layout spells.
    pub open spec fn merged(&self, i: int) -> DescView {
        if self.is_complete(i) {
            self.rebuilt(i)
        } else {
            self.all@[i].desc@
        }
    }

    /// Whether the layout of a type still spells the fields of its shape.
    pub fn layout_spells_desc(&self, i: usize) -> (r: bool)
        requires
            self.wf(),
            i < self.all@.len(),
        ensures
            r == self.spells(i as int),
    {
        let info = &self.all[i];
        let fields = match &info.desc {
            TypeDesc::Struct { name: _, fields } => fields,
            TypeDesc::Union { name: _, fields } => fields,
            _ => {
                return false;
            },
        };
        proof {
            ir::lemma_field_list_views(fields@);
        }
        let ghost own = ir::field_views(fields@);
        let ghost laid = self.layout_fields(i as int);
        assert(fields_of(info.desc@) == Some(own));
        if fields.len() != info.layout.len() {
            assert(own.len() != laid.len());
            return false;
        }
        let mut k: usize = 0;
        while k < fields.len()
            invariant
                k <= fields@.len(),
                self.wf(),
                i < self.all@.len(),
                *info == self.all@[i as int],
                fields@.len() == info.layout@.len(),
                own == ir::field_views(fields@),
                own.len() == fields@.len(),
                laid == self.layout_fields(i as int),
                fields_of(info.desc@) == Some(own),
                forall|j: int| 0 <= j < fields@.len() ==> #[trigger] own[j] == (
                    fields@[j].0@,
                    fields@[j].1@,
                ),
                forall|j: int| 0 <= j < k ==> #[trigger] own[j] == laid[j],
            decreases fields@.len() - k,
        {
            assert(own[k as int] == (fields@[k as int].0@, fields@[k as int].1@));
            assert(self.all@[i as int].layout@[k as int].1.0 < self.all@.len());
            let at = info.layout[k].1.0 as usize;
            if !str_eq(fields[k].0.as_str(), info.layout[k].0.as_str()) || !desc_eq(
                &self.all[at].desc,
                &fields[k].1,
            ) {
                assert(own[k as int] != laid[k as int]);
                return false;
            }
            k += 1;
        }
        assert(own =~= laid);
        true
    }

    /// The fields of a type as its layout has them. A nested tag that was
    /// completed after the type is complete there.
    pub fn fields_from_layout(&self, i: usize) -> (r: Vec<(String, TypeDesc)>)
        requires
            self.wf(),
            i < self.all@.len(),
        ensures
            ir::field_views(r@) == self.layout_fields(i as int),
    {
        let info = &self.all[i];
        let ghost laid = self.layout_fields(i as int);
        let mut out: Vec<(String, TypeDesc)> = Vec::new();
        let mut k: usize = 0;
        while k < info.layout.len()
            invariant
                k <= info.layout@.len(),
                self.wf(),
                i < self.all@.len(),
                *info == self.all@[i as int],
                laid == self.layout_fields(i as int),
                out@.len() == k,
                forall|j: int|
                    0 <= j < k ==> laid[j] == ((#[trigger] out@[j]).0@, out@[j].1@),
            decreases info.layout@.len() - k,
        {
            assert(self.all@[i as int].layout@[k as int].1.0 < self.all@.len());
            let at = info.layout[k].1.0 as usize;
            out.push((info.layout[k].0.clone(), copy_desc(&self.all[at].desc)));
            assert(laid[k as int] == (out@[k as int].0@, out@[k as int].1@));
            k += 1;
        }
        proof {
            ir::lemma_field_list_views(out@);
            assert(ir::field_views(out@) =~= laid);
        }
        out
    }

    /// What a type of the unit is interned as in the program.
    pub fn merge_desc(&self, i: usize) -> (r: TypeDesc)
        requires
            self.wf(),
            i < self.all@.len(),
        ensures
            r@ == self.merged(i as int),
    {
        let info = &self.all[i];
        match &info.desc {
            TypeDesc::Struct { name, fields } => {
                proof {
                    ir::lemma_field_list_views(fields@);
                }
                if fields.len() > 0 && !self.layout_spells_desc(i) {
                    return TypeDesc::Struct {
                        name: name.clone(),
                        fields: self.fields_from_layout(i),
                    };
                }
            },
            TypeDesc::Union { name, fields } => {
                proof {
                    ir::lemma_field_list_views(fields@);
                }
                if fields.len() > 0 && !self.layout_spells_desc(i) {
                    return TypeDesc::Union {
                        name: name.clone(),
                        fields: self.fields_from_layout(i),
                    };
                }
            },
            _ => {},
        }
        copy_desc(&info.desc)
    }

    /// What the types of a unit are interned as, in order.
    pub fn merge_descs_of(&self) -> (r: Vec<TypeDesc>)
        requires
            self.wf(),
        ensures
            r@.len() == self.all@.len(),
            forall|i: int| 0 <= i < r@.len() ==> (#[trigger] r@[i])@ == self.merged(i),
    {
        let mut out: Vec<TypeDesc> = Vec::new();
        let mut i: usize = 0;
        while i < self.all.len()
            invariant
                i <= self.all@.len(),
                self.wf(),
                out@.len() == i,
                forall|j: int| 0 <= j < i ==> (#[trigger] out@[j])@ == self.merged(j),
            decreases self.all@.len() - i,
        {
            out.push(self.merge_desc(i));
            i += 1;
        }
        out
    }
}

/// How a type enters the program's table.
#[derive(Debug, PartialEq, Eq)]
pub enum TypeStep {
    /// It is interned as it is.
    Intern { desc: TypeDesc },
    /// Its fields are joined with those the program has under its tag: another
    /// configuration of a unit may lay an aggregate out otherwise.
    Unite { name: String, is_union: bool, fields: Vec<(String, TypeDesc)> },
}

/// The step by which a type enters the program, as its view: the shape, and
/// whether it is united with what the program holds.
pub open spec fn type_step(t: UnitTypes, i: int, unite: bool) -> (DescView, bool) {
    (t.merged(i), unite && t.is_complete(i))
}

impl TypeStep {
    pub open spec fn view(&self) -> (DescView, bool) {
        match self {
            TypeStep::Intern { desc } => (desc@, false),
            TypeStep::Unite { name, is_union, fields } => (
                if *is_union {
                    DescView::Union { name: name@, fields: ir::field_views(fields@) }
                } else {
                    DescView::Struct { name: name@, fields: ir::field_views(fields@) }
                },
                true,
            ),
        }
    }
}

impl UnitTypes {
    /// How a type of the unit enters the program.
    pub fn next_step(&self, i: usize, unite: bool) -> (r: TypeStep)
        requires
            self.wf(),
            i < self.all@.len(),
        ensures
            r@ == type_step(*self, i as int, unite),
    {
        if unite {
            match &self.all[i].desc {
                TypeDesc::Struct { name, fields } => {
                    proof {
                        ir::lemma_field_list_views(fields@);
                    }
                    if fields.len() > 0 {
                        return TypeStep::Unite {
                            name: name.clone(),
                            is_union: false,
                            fields: self.fields_from_layout(i),
                        };
                    }
                },
                TypeDesc::Union { name, fields } => {
                    proof {
                        ir::lemma_field_list_views(fields@);
                    }
                    if fields.len() > 0 {
                        return TypeStep::Unite {
                            name: name.clone(),
                            is_union: true,
                            fields: self.fields_from_layout(i),
                        };
                    }
                },
                _ => {},
            }
        }
        TypeStep::Intern { desc: self.merge_desc(i) }
    }
}

impl UnitTypes {
    /// How a type of the unit enters the program, from the shapes that were
    /// prepared where types are not united.
    pub fn prepared_step(&self, prepared: &Vec<TypeDesc>, i: usize, unite: bool) -> (r: TypeStep)
        requires
            self.wf(),
            i < self.all@.len(),
            prepared@.len() == self.all@.len(),
            forall|j: int| 0 <= j < prepared@.len() ==> (#[trigger] prepared@[j])@ == self.merged(j),
        ensures
            r@ == type_step(*self, i as int, unite),
    {
        if unite {
            self.next_step(i, unite)
        } else {
            TypeStep::Intern { desc: copy_desc(&prepared[i]) }
        }
    }
}

/// Shapes that are prepared ahead hand the type table the steps that fresh ones
/// do: `taken` by [`UnitTypes::prepared_step`] from the shapes of
/// [`UnitTypes::merge_descs_of`], and `fresh` by [`UnitTypes::next_step`].
pub proof fn law_prepared_shapes_step_alike(
    t: UnitTypes,
    i: int,
    unite: bool,
    taken: TypeStep,
    fresh: TypeStep,
)
    requires
        0 <= i < t.all@.len(),
        taken@ == type_step(t, i, unite),
        fresh@ == type_step(t, i, unite),
    ensures
        taken@ == fresh@,
        !unite ==> taken is Intern && taken->desc@ == t.merged(i),
{
}

/// Where the layout still spells the shape, rebuilding it changes nothing.
pub proof fn law_rebuilding_an_unchanged_aggregate_keeps_it(t: UnitTypes, i: int)
    requires
        t.spells(i),
    ensures
        t.rebuilt(i) == t.all@[i].desc@,
        t.merged(i) == t.all@[i].desc@,
{
}

/// A nested tag that was completed in the layout is complete in what is
/// merged.
pub proof fn law_completed_tags_are_merged_from_the_layout(t: UnitTypes, i: int, k: int)
    requires
        0 <= i < t.all@.len(),
        0 <= k < t.all@[i].layout@.len(),
        t.is_complete(i),
    ensures
        fields_of(t.merged(i)) matches Some(fields) && fields[k] == (
            t.all@[i].layout@[k].0@,
            t.all@[t.all@[i].layout@[k].1.0 as int].desc@,
        ),
{
}

} // verus!
