use vstd::prelude::*;
use vstd::string::StringExecFns;

use crate::text::Text;
use crate::text_template::{expand_model, set_in_text_model, ExpanderModel, ReplModel, SubExpModel,
    TextTemplate, TextTemplateModel};

verus! {

/// One recorded binding of a region instance, raw or markdown.
pub struct SubOpModel {
    pub md: bool,
    pub name: Seq<char>,
    pub value: Seq<char>,
}

/// One recorded filling operation of an [`OwningTemplateExpander`].
pub enum FillingOpModel {
    SetValue { name: Seq<char>, value: Seq<char> },
    SetMd { name: Seq<char>, value: Seq<char> },
    SetLines { name: Seq<char>, value: Seq<char> },
    SetLinesMd { name: Seq<char>, value: Seq<char> },
    Sub { name: Seq<char>, ops: Seq<SubOpModel> },
}

/// The region-instance bindings, replayed onto an instance expander.
pub open spec fn apply_sub_ops(se: SubExpModel, ops: Seq<SubOpModel>, j: int) -> SubExpModel
    decreases ops.len() - j,
{
    if j >= ops.len() {
        se
    } else {
        let op = ops[j];
        let se2 = if op.md {
            SubExpModel { mds: se.mds.push(ReplModel { name: op.name, value: op.value }), ..se }
        } else {
            SubExpModel { raws: se.raws.push(ReplModel { name: op.name, value: op.value }), ..se }
        };
        apply_sub_ops(se2, ops, j + 1)
    }
}

/// The recorded operations, replayed in order onto a fresh expander of the
/// template.
pub open spec fn replay_ops(ops: Seq<FillingOpModel>, j: int, m: ExpanderModel) -> ExpanderModel
    decreases ops.len() - j,
{
    if j >= ops.len() {
        m
    } else {
        let m2 = match ops[j] {
            FillingOpModel::SetValue { name, value } => ExpanderModel {
                text: set_in_text_model(m.template.compound_args, 0, m.text, 0, name, value),
                ..m
            },
            FillingOpModel::SetMd { name, value } => ExpanderModel {
                md_repls: m.md_repls.push(ReplModel { name, value }),
                ..m
            },
            FillingOpModel::SetLines { name, value } => ExpanderModel {
                line_repls: m.line_repls.push(ReplModel { name, value }),
                ..m
            },
            FillingOpModel::SetLinesMd { name, value } => ExpanderModel {
                line_md_repls: m.line_md_repls.push(ReplModel { name, value }),
                ..m
            },
            FillingOpModel::Sub { name, ops: sops } => ExpanderModel {
                sub_exps: m.sub_exps.push(
                    apply_sub_ops(
                        SubExpModel {
                            name,
                            raws: Seq::<ReplModel>::empty(),
                            mds: Seq::<ReplModel>::empty(),
                        },
                        sops,
                        0,
                    ),
                ),
                ..m
            },
        };
        replay_ops(ops, j + 1, m2)
    }
}

/// A fresh expander of the template: its working text is the template's
/// text and nothing is bound yet.
pub open spec fn fresh_expander(tpl: TextTemplateModel) -> ExpanderModel {
    ExpanderModel {
        template: tpl,
        text: tpl.text,
        sub_exps: Seq::<SubExpModel>::empty(),
        md_repls: Seq::<ReplModel>::empty(),
        line_repls: Seq::<ReplModel>::empty(),
        line_md_repls: Seq::<ReplModel>::empty(),
    }
}

/// What expanding a template with the recorded operations produces.
pub open spec fn owning_expand_model(tpl: TextTemplateModel, ops: Seq<FillingOpModel>) -> Seq<
    crate::line::LineModel,
> {
    expand_model(replay_ops(ops, 0, fresh_expander(tpl)))
}

/// The operation with one more binding recorded on its region instance;
/// an operation that carries no region instance is unchanged.
pub open spec fn sub_op_push(op: FillingOpModel, s: SubOpModel) -> FillingOpModel {
    match op {
        FillingOpModel::Sub { name, ops } => FillingOpModel::Sub { name, ops: ops.push(s) },
        other => other,
    }
}

enum SubFillingOperation<'s> {
    SetValue { name: &'s str, value: String },
    SetMd { name: &'s str, value: String },
}

impl<'s> View for SubFillingOperation<'s> {
    type V = SubOpModel;

    closed spec fn view(&self) -> SubOpModel {
        match self {
            SubFillingOperation::SetValue { name, value } => SubOpModel {
                md: false,
                name: name@,
                value: value@,
            },
            SubFillingOperation::SetMd { name, value } => SubOpModel {
                md: true,
                name: name@,
                value: value@,
            },
        }
    }
}

spec fn sub_op_views<'s>(s: Seq<SubFillingOperation<'s>>) -> Seq<SubOpModel> {
    s.map_values(|o: SubFillingOperation<'s>| o@)
}

enum FillingOperation<'s> {
    SetValue { name: &'s str, value: String },
    SetMd { name: &'s str, value: String },
    SetLines { name: &'s str, value: String },
    SetLinesMd { name: &'s str, value: String },
    Sub { name: &'s str, sub_expander: OwningSubTemplateExpander<'s> },
}

impl<'s> View for FillingOperation<'s> {
    type V = FillingOpModel;

    closed spec fn view(&self) -> FillingOpModel {
        match self {
            FillingOperation::SetValue { name, value } => FillingOpModel::SetValue {
                name: name@,
                value: value@,
            },
            FillingOperation::SetMd { name, value } => FillingOpModel::SetMd {
                name: name@,
                value: value@,
            },
            FillingOperation::SetLines { name, value } => FillingOpModel::SetLines {
                name: name@,
                value: value@,
            },
            FillingOperation::SetLinesMd { name, value } => FillingOpModel::SetLinesMd {
                name: name@,
                value: value@,
            },
            FillingOperation::Sub { name, sub_expander } => FillingOpModel::Sub {
                name: name@,
                ops: sub_op_views(sub_expander.ops@),
            },
        }
    }
}

spec fn op_views<'s>(s: Seq<FillingOperation<'s>>) -> Seq<FillingOpModel> {
    s.map_values(|o: FillingOperation<'s>| o@)
}

/// A template expander owning the values you set, so that you don't have
/// to keep them around until you produce the text to display.
/// Additionally, the same expander can be used for several templates.
pub struct OwningTemplateExpander<'s> {
    ops: Vec<FillingOperation<'s>>,
}

impl<'s> View for OwningTemplateExpander<'s> {
    type V = Seq<FillingOpModel>;

    closed spec fn view(&self) -> Seq<FillingOpModel> {
        op_views(self.ops@)
    }
}

/// The bindings of one instance of a repeatable region, owned like the
/// rest.
pub struct OwningSubTemplateExpander<'s> {
    ops: Vec<SubFillingOperation<'s>>,
}

impl<'s> View for OwningSubTemplateExpander<'s> {
    type V = Seq<SubOpModel>;

    closed spec fn view(&self) -> Seq<SubOpModel> {
        sub_op_views(self.ops@)
    }
}

impl<'s> OwningTemplateExpander<'s> {
    pub fn new() -> (r: Self)
        ensures
            r@ == Seq::<FillingOpModel>::empty(),
    {
        let r = OwningTemplateExpander { ops: Vec::new() };
        proof {
            assert(r@ =~= Seq::<FillingOpModel>::empty());
        }
        r
    }

    /// record: replace placeholders named `name` with the given value, not
    /// interpreted (stars, backquotes, etc. don't change the styling the
    /// template defined)
    pub fn set(&mut self, name: &'s str, value: &str)
        ensures
            final(self)@ == old(self)@.push(FillingOpModel::SetValue { name: name@, value: value@ }),
    {
        let ghost pre = self@;
        let op = FillingOperation::SetValue { name, value: String::from_str(value) };
        self.ops.push(op);
        proof {
            assert(self@ =~= pre.push(FillingOpModel::SetValue { name: name@, value: value@ }));
        }
    }

    /// record: replace placeholders named `name` with the given value,
    /// interpreted as markdown
    pub fn set_md(&mut self, name: &'s str, value: &str)
        ensures
            final(self)@ == old(self)@.push(FillingOpModel::SetMd { name: name@, value: value@ }),
    {
        let ghost pre = self@;
        let op = FillingOperation::SetMd { name, value: String::from_str(value) };
        self.ops.push(op);
        proof {
            assert(self@ =~= pre.push(FillingOpModel::SetMd { name: name@, value: value@ }));
        }
    }

    /// record: replace the line holding a placeholder named `name` with
    /// one copy per line of the value, not interpreted.
    /// This is mostly useful when the placeholder is a repeatable line
    /// (code, list item)
    pub fn set_lines(&mut self, name: &'s str, raw_lines: &str)
        ensures
            final(self)@ == old(self)@.push(
                FillingOpModel::SetLines { name: name@, value: raw_lines@ },
            ),
    {
        let ghost pre = self@;
        let op = FillingOperation::SetLines { name, value: String::from_str(raw_lines) };
        self.ops.push(op);
        proof {
            assert(self@ =~= pre.push(
                FillingOpModel::SetLines { name: name@, value: raw_lines@ },
            ));
        }
    }

    /// record: replace the line holding a placeholder named `name` with
    /// one copy per line of the value, interpreted as markdown
    pub fn set_lines_md(&mut self, name: &'s str, md: &str)
        ensures
            final(self)@ == old(self)@.push(
                FillingOpModel::SetLinesMd { name: name@, value: md@ },
            ),
    {
        let ghost pre = self@;
        let op = FillingOperation::SetLinesMd { name, value: String::from_str(md) };
        self.ops.push(op);
        proof {
            assert(self@ =~= pre.push(FillingOpModel::SetLinesMd { name: name@, value: md@ }));
        }
    }

    /// record one instance of the repeatable region `name` and return its
    /// index, under which `sub_set` and `sub_set_md` bind its placeholders
    pub fn sub(&mut self, name: &'s str) -> (r: usize)
        ensures
            final(self)@ == old(self)@.push(
                FillingOpModel::Sub { name: name@, ops: Seq::<SubOpModel>::empty() },
            ),
            r == old(self)@.len(),
    {
        let ghost pre = self@;
        let idx = self.ops.len();
        let sub_expander = OwningSubTemplateExpander::new();
        let op = FillingOperation::Sub { name, sub_expander };
        proof {
            assert(op@ == (FillingOpModel::Sub { name: name@, ops: Seq::<SubOpModel>::empty() }));
        }
        self.ops.push(op);
        proof {
            assert(self@ =~= pre.push(
                FillingOpModel::Sub { name: name@, ops: Seq::<SubOpModel>::empty() },
            ));
        }
        idx
    }

    /// bind, in the region instance recorded as `sub_idx`, the
    /// placeholders named `name` to the given raw value (indices that
    /// don't carry a region instance are ignored)
    pub fn sub_set(&mut self, sub_idx: usize, name: &'s str, value: &str)
        ensures
            final(self)@ == (if sub_idx < old(self)@.len() {
                old(self)@.update(
                    sub_idx as int,
                    sub_op_push(
                        old(self)@[sub_idx as int],
                        SubOpModel { md: false, name: name@, value: value@ },
                    ),
                )
            } else {
                old(self)@
            }),
    {
        if sub_idx < self.ops.len() {
            let ghost pre = self@;
            let op = self.ops.remove(sub_idx);
            proof {
                assert(op@ == pre[sub_idx as int]);
                assert(self@ =~= pre.remove(sub_idx as int));
            }
            match op {
                FillingOperation::Sub { name: sub_name, sub_expander } => {
                    let mut sub_expander = sub_expander;
                    sub_expander.set(name, value);
                    let op2 = FillingOperation::Sub { name: sub_name, sub_expander };
                    self.ops.insert(sub_idx, op2);
                    proof {
                        assert(self@ =~= pre.update(sub_idx as int, op2@));
                    }
                },
                op2 => {
                    self.ops.insert(sub_idx, op2);
                    proof {
                        assert(self@ =~= pre.update(sub_idx as int, pre[sub_idx as int]));
                    }
                },
            }
        }
    }

    /// bind, in the region instance recorded as `sub_idx`, the
    /// placeholders named `name` to the given value, interpreted as
    /// markdown
    pub fn sub_set_md(&mut self, sub_idx: usize, name: &'s str, value: &str)
        ensures
            final(self)@ == (if sub_idx < old(self)@.len() {
                old(self)@.update(
                    sub_idx as int,
                    sub_op_push(
                        old(self)@[sub_idx as int],
                        SubOpModel { md: true, name: name@, value: value@ },
                    ),
                )
            } else {
                old(self)@
            }),
    {
        if sub_idx < self.ops.len() {
            let ghost pre = self@;
            let op = self.ops.remove(sub_idx);
            proof {
                assert(op@ == pre[sub_idx as int]);
                assert(self@ =~= pre.remove(sub_idx as int));
            }
            match op {
                FillingOperation::Sub { name: sub_name, sub_expander } => {
                    let mut sub_expander = sub_expander;
                    sub_expander.set_md(name, value);
                    let op2 = FillingOperation::Sub { name: sub_name, sub_expander };
                    self.ops.insert(sub_idx, op2);
                    proof {
                        assert(self@ =~= pre.update(sub_idx as int, op2@));
                    }
                },
                op2 => {
                    self.ops.insert(sub_idx, op2);
                    proof {
                        assert(self@ =~= pre.update(sub_idx as int, pre[sub_idx as int]));
                    }
                },
            }
        }
    }

    /// build a text by applying the recorded operations to a fresh
    /// expander of the given template
    pub fn expand<'t>(&'s self, template: &'t TextTemplate<'s>) -> (r: Text<'s>)
        ensures
            r@ == owning_expand_model(template@, self@),
    {
        let ghost tpl = template@;
        let ghost opsv = self@;
        let mut expander = template.expander();
        let mut j: usize = 0;
        while j < self.ops.len()
            invariant
                0 <= j <= self.ops@.len(),
                opsv == op_views(self.ops@),
                opsv.len() == self.ops@.len(),
                replay_ops(opsv, j as int, expander@) == replay_ops(opsv, 0, fresh_expander(tpl)),
                expander@.template == tpl,
            decreases self.ops@.len() - j,
        {
            let op = &self.ops[j];
            proof {
                assert(op@ == opsv[j as int]);
            }
            match op {
                FillingOperation::SetValue { name, value } => {
                    expander.set(*name, value.as_str());
                },
                FillingOperation::SetMd { name, value } => {
                    expander.set_md(*name, value.as_str());
                },
                FillingOperation::SetLines { name, value } => {
                    expander.set_lines(*name, value.as_str());
                },
                FillingOperation::SetLinesMd { name, value } => {
                    expander.set_lines_md(*name, value.as_str());
                },
                FillingOperation::Sub { name, sub_expander } => {
                    let ghost sops = sub_op_views(sub_expander.ops@);
                    let ghost m_pre = expander@;
                    let ghost init_se = SubExpModel {
                        name: name@,
                        raws: Seq::<ReplModel>::empty(),
                        mds: Seq::<ReplModel>::empty(),
                    };
                    let si = expander.sub(*name);
                    let mut k: usize = 0;
                    while k < sub_expander.ops.len()
                        invariant
                            0 <= k <= sub_expander.ops@.len(),
                            sops == sub_op_views(sub_expander.ops@),
                            sops.len() == sub_expander.ops@.len(),
                            si as int == m_pre.sub_exps.len(),
                            expander@.template == m_pre.template,
                            expander@.text == m_pre.text,
                            expander@.md_repls == m_pre.md_repls,
                            expander@.line_repls == m_pre.line_repls,
                            expander@.line_md_repls == m_pre.line_md_repls,
                            expander@.sub_exps.len() == m_pre.sub_exps.len() + 1,
                            expander@.sub_exps == m_pre.sub_exps.push(
                                expander@.sub_exps.last(),
                            ),
                            apply_sub_ops(expander@.sub_exps.last(), sops, k as int)
                                == apply_sub_ops(init_se, sops, 0),
                        decreases sub_expander.ops@.len() - k,
                    {
                        let sop = &sub_expander.ops[k];
                        proof {
                            assert(sop@ == sops[k as int]);
                        }
                        let ghost se_pre = expander@.sub_exps.last();
                        match sop {
                            SubFillingOperation::SetValue { name: sn, value: sv } => {
                                expander.sub_set(si, *sn, sv.as_str());
                            },
                            SubFillingOperation::SetMd { name: sn, value: sv } => {
                                expander.sub_set_md(si, *sn, sv.as_str());
                            },
                        }
                        proof {
                            assert(expander@.sub_exps =~= m_pre.sub_exps.push(
                                expander@.sub_exps.last(),
                            ));
                        }
                        k += 1;
                    }
                    proof {
                        assert(expander@ == (ExpanderModel {
                            sub_exps: m_pre.sub_exps.push(apply_sub_ops(init_se, sops, 0)),
                            ..m_pre
                        }));
                    }
                },
            }
            j += 1;
        }
        expander.expand()
    }
}

impl<'s> OwningSubTemplateExpander<'s> {
    pub fn new() -> (r: Self)
        ensures
            r@ == Seq::<SubOpModel>::empty(),
    {
        let r = OwningSubTemplateExpander { ops: Vec::new() };
        proof {
            assert(r@ =~= Seq::<SubOpModel>::empty());
        }
        r
    }

    /// record: replace placeholders named `name` of this instance with the
    /// given value, not interpreted
    pub fn set(&mut self, name: &'s str, value: &str)
        ensures
            final(self)@ == old(self)@.push(
                SubOpModel { md: false, name: name@, value: value@ },
            ),
    {
        let ghost pre = self@;
        let op = SubFillingOperation::SetValue { name, value: String::from_str(value) };
        self.ops.push(op);
        proof {
            assert(self@ =~= pre.push(SubOpModel { md: false, name: name@, value: value@ }));
        }
    }

    /// record: replace placeholders named `name` of this instance with the
    /// given value, interpreted as markdown
    pub fn set_md(&mut self, name: &'s str, value: &str)
        ensures
            final(self)@ == old(self)@.push(SubOpModel { md: true, name: name@, value: value@ }),
    {
        let ghost pre = self@;
        let op = SubFillingOperation::SetMd { name, value: String::from_str(value) };
        self.ops.push(op);
        proof {
            assert(self@ =~= pre.push(SubOpModel { md: true, name: name@, value: value@ }));
        }
    }
}

} // verus!
