//! One reconciliation cycle: which tasks are looked at, what each one needs,
//! and which gauge updates the cycle publishes.
use vstd::prelude::*;

use crate::freshness::{freshness_spec, has_candidate, is_newest, resolve, tag_views, UpdatedVersion};
use crate::registry::GetTagsError;
use crate::image::{parse_image_spec, Image, ImageView};
use crate::nomad::{ReadJobConfig, ReadJobResponse, ReadJobTaskGroup};
use crate::text::owned;
use crate::version::{parse_version_spec, Version};

verus! {

/// A task with the job and group it belongs to.
#[derive(Debug)]
pub struct TaskRef {
    pub job: String,
    pub group: String,
    pub task: String,
    pub config: ReadJobConfig,
}

/// The tasks of one group, in order.
pub open spec fn group_tasks(job: String, g: ReadJobTaskGroup) -> Seq<TaskRef> {
    g.tasks@.map_values(
        |t: crate::nomad::ReadJobTask| TaskRef { job, group: g.name, task: t.name, config: t.config },
    )
}

/// The tasks of a job's groups, in order.
pub open spec fn groups_tasks(job: String, groups: Seq<ReadJobTaskGroup>) -> Seq<TaskRef>
    decreases groups.len(),
{
    if groups.len() == 0 {
        Seq::empty()
    } else {
        groups_tasks(job, groups.drop_last()) + group_tasks(job, groups.last())
    }
}

/// The tasks that a cycle looks at: those of every job that is not a child
/// of another job, in order.
pub open spec fn cycle_tasks(jobs: Seq<ReadJobResponse>) -> Seq<TaskRef>
    decreases jobs.len(),
{
    if jobs.len() == 0 {
        Seq::empty()
    } else {
        let j = jobs.last();
        cycle_tasks(jobs.drop_last()) + if j.parent_id@.len() == 0 {
            groups_tasks(j.name, j.task_groups@)
        } else {
            Seq::empty()
        }
    }
}

/// The tasks of the jobs that are not children of another job.
pub fn tasks_of_jobs(jobs: &Vec<ReadJobResponse>) -> (r: Vec<TaskRef>)
    ensures
        r@ == cycle_tasks(jobs@),
{
    let mut out: Vec<TaskRef> = Vec::new();
    let mut i: usize = 0;
    while i < jobs.len()
        invariant
            i <= jobs@.len(),
            out@ == cycle_tasks(jobs@.take(i as int)),
        decreases jobs@.len() - i,
    {
        let job = &jobs[i];
        assert(jobs@.take(i + 1).drop_last() =~= jobs@.take(i as int));
        assert(jobs@.take(i + 1).last() == *job);
        if job.parent_id.as_str().unicode_len() == 0 {
            let ghost base = out@;
            let mut g: usize = 0;
            assert(job.task_groups@.take(0) =~= Seq::<ReadJobTaskGroup>::empty());
            assert(base + groups_tasks(job.name, Seq::empty()) =~= base);
            while g < job.task_groups.len()
                invariant
                    g <= job.task_groups@.len(),
                    out@ == base + groups_tasks(job.name, job.task_groups@.take(g as int)),
                decreases job.task_groups@.len() - g,
            {
                let group = &job.task_groups[g];
                let ghost gs = job.task_groups@.take(g + 1);
                assert(gs.drop_last() =~= job.task_groups@.take(g as int));
                assert(gs.last() == *group);
                let ghost mid = out@;
                let mut t: usize = 0;
                while t < group.tasks.len()
                    invariant
                        t <= group.tasks@.len(),
                        out@ == mid + group_tasks(job.name, *group).take(t as int),
                    decreases group.tasks@.len() - t,
                {
                    let task = &group.tasks[t];
                    out.push(
                        TaskRef {
                            job: job.name.clone(),
                            group: group.name.clone(),
                            task: task.name.clone(),
                            config: task.config.duplicate(),
                        },
                    );
                    t = t + 1;
                    assert(out@ =~= mid + group_tasks(job.name, *group).take(t as int));
                }
                assert(group_tasks(job.name, *group).take(t as int) =~= group_tasks(job.name, *group));
                g = g + 1;
                assert(out@ =~= base + groups_tasks(job.name, job.task_groups@.take(g as int)));
            }
            assert(job.task_groups@.take(g as int) =~= job.task_groups@);
        }
        i = i + 1;
        assert(out@ =~= cycle_tasks(jobs@.take(i as int)));
    }
    assert(jobs@.take(i as int) =~= jobs@);
    out
}

/// What a task needs before its outcome is known.
#[derive(Debug)]
pub enum TaskPlan {
    /// The outcome is known without asking a registry.
    Publish(UpdatedVersion),
    /// The task is left out of this cycle.
    Skip,
    /// The image's registry must list its tags.
    LookUp { image: Image, version: Version },
}

pub enum TaskPlanView {
    Publish(crate::freshness::UpdatedVersionView),
    Skip,
    LookUp { image: ImageView, version: Version },
}

impl View for TaskPlan {
    type V = TaskPlanView;

    open spec fn view(&self) -> TaskPlanView {
        match self {
            TaskPlan::Publish(u) => TaskPlanView::Publish(u@),
            TaskPlan::Skip => TaskPlanView::Skip,
            TaskPlan::LookUp { image, version } => TaskPlanView::LookUp {
                image: image@,
                version: *version,
            },
        }
    }
}

/// A task of the raw-exec driver counts as up to date; a container task whose
/// image or tag does not parse is skipped; one on the floating tag is up to
/// date without a registry call; any other needs its registry's tags.
pub open spec fn plan_spec(config: ReadJobConfig) -> TaskPlanView {
    match config {
        ReadJobConfig::RawExec {} => TaskPlanView::Publish(
            crate::freshness::UpdatedVersionView::UpToDate { version: Seq::empty() },
        ),
        ReadJobConfig::Docker { image } => match parse_image_spec(image@) {
            Err(_) => TaskPlanView::Skip,
            Ok(iv) => match parse_version_spec(iv.tag) {
                Err(_) => TaskPlanView::Skip,
                Ok(Version::Latest) => TaskPlanView::Publish(
                    crate::freshness::UpdatedVersionView::UpToDate {
                        version: crate::version::LATEST_TAG@,
                    },
                ),
                Ok(v) => TaskPlanView::LookUp { image: iv, version: v },
            },
        },
    }
}

/// Decides what a task needs.
pub fn plan_task(config: &ReadJobConfig) -> (r: TaskPlan)
    ensures
        r@ == plan_spec(*config),
{
    match config {
        ReadJobConfig::RawExec {} => TaskPlan::Publish(UpdatedVersion::UpToDate { version: String::new() }),
        ReadJobConfig::Docker { image } => match Image::parse(image.clone()) {
            Err(_) => TaskPlan::Skip,
            Ok(img) => match img.tag.parse_version() {
                Err(_) => TaskPlan::Skip,
                Ok(Version::Latest) => TaskPlan::Publish(
                    UpdatedVersion::UpToDate { version: owned(crate::version::LATEST_TAG) },
                ),
                Ok(v) => TaskPlan::LookUp { image: img, version: v },
            },
        },
    }
}

/// The outcome of a task that needed its registry's tags: none where the
/// tags could not be had or offer no candidate, else the comparison with the
/// newest candidate.
pub fn finish_lookup(version: &Version, tags: &Result<Vec<String>, GetTagsError>) -> (r: Option<UpdatedVersion>)
    ensures
        match tags {
            Err(_) => r is None,
            Ok(ts) => {
                &&& r is None <==> !has_candidate(tag_views(ts@))
                &&& r matches Some(u) ==> exists|m: Version|
                    is_newest(tag_views(ts@), m) && u@ == #[trigger] freshness_spec(*version, m)
            },
        },
{
    match tags {
        Err(_) => None,
        Ok(ts) => resolve(version, ts),
    }
}

/// A gauge update for one task.
#[derive(Debug)]
pub struct GaugeUpdate {
    pub job: String,
    pub group: String,
    pub task: String,
    pub version: UpdatedVersion,
}

impl GaugeUpdate {
    /// A copy of the update.
    pub fn duplicate(&self) -> (r: GaugeUpdate)
        ensures
            r == *self,
    {
        GaugeUpdate {
            job: self.job.clone(),
            group: self.group.clone(),
            task: self.task.clone(),
            version: self.version.duplicate(),
        }
    }
}

/// What the gauges are told, in order.
#[derive(Debug)]
pub enum SinkCommand {
    /// Drop every value set by an earlier cycle.
    Clear,
    /// Set the values of one task.
    Update(GaugeUpdate),
}

pub open spec fn as_command(u: GaugeUpdate) -> SinkCommand {
    SinkCommand::Update(u)
}

/// How a cycle publishes: the gauges are cleared once, then every update is
/// set, in order, so that no value of a vanished task survives.
pub fn publish_commands(updates: &Vec<GaugeUpdate>) -> (r: Vec<SinkCommand>)
    ensures
        r@ == seq![SinkCommand::Clear] + updates@.map_values(|u: GaugeUpdate| as_command(u)),
{
    let mut out: Vec<SinkCommand> = Vec::new();
    out.push(SinkCommand::Clear);
    let mut i: usize = 0;
    while i < updates.len()
        invariant
            i <= updates@.len(),
            out@ == seq![SinkCommand::Clear] + updates@.take(i as int).map_values(
                |u: GaugeUpdate| as_command(u),
            ),
        decreases updates@.len() - i,
    {
        out.push(SinkCommand::Update(updates[i].duplicate()));
        i = i + 1;
        assert(out@ =~= seq![SinkCommand::Clear] + updates@.take(i as int).map_values(
            |u: GaugeUpdate| as_command(u),
        ));
    }
    assert(updates@.take(i as int) =~= updates@);
    out
}

/// The updates of a cycle: one for each task with an outcome, in order.
pub open spec fn updates_spec(tasks: Seq<TaskRef>, outcomes: Seq<Option<UpdatedVersion>>) -> Seq<GaugeUpdate>
    decreases tasks.len(),
{
    if tasks.len() == 0 || outcomes.len() == 0 {
        Seq::empty()
    } else {
        let t = tasks.last();
        updates_spec(tasks.drop_last(), outcomes.drop_last()) + match outcomes.last() {
            Some(u) => seq![GaugeUpdate { job: t.job, group: t.group, task: t.task, version: u }],
            None => Seq::empty(),
        }
    }
}

/// Pairs each task that has an outcome with it; a task without one does not
/// hold back any other.
pub fn cycle_updates(tasks: &Vec<TaskRef>, outcomes: &Vec<Option<UpdatedVersion>>) -> (r: Vec<GaugeUpdate>)
    requires
        tasks@.len() == outcomes@.len(),
    ensures
        r@ == updates_spec(tasks@, outcomes@),
{
    let mut out: Vec<GaugeUpdate> = Vec::new();
    let mut i: usize = 0;
    while i < tasks.len()
        invariant
            i <= tasks@.len(),
            tasks@.len() == outcomes@.len(),
            out@ == updates_spec(tasks@.take(i as int), outcomes@.take(i as int)),
        decreases tasks@.len() - i,
    {
        assert(tasks@.take(i + 1).drop_last() =~= tasks@.take(i as int));
        assert(outcomes@.take(i + 1).drop_last() =~= outcomes@.take(i as int));
        match &outcomes[i] {
            Some(u) => {
                let t = &tasks[i];
                out.push(
                    GaugeUpdate {
                        job: t.job.clone(),
                        group: t.group.clone(),
                        task: t.task.clone(),
                        version: u.duplicate(),
                    },
                );
            },
            None => {},
        }
        i = i + 1;
        assert(out@ =~= updates_spec(tasks@.take(i as int), outcomes@.take(i as int)));
    }
    assert(tasks@.take(i as int) =~= tasks@);
    assert(outcomes@.take(i as int) =~= outcomes@);
    out
}

/// A container task on the floating tag is up to date as `latest`, and asks
/// no registry for its tags.
pub proof fn lemma_floating_tag_needs_no_registry(image: String)
    requires
        parse_image_spec(image@) matches Ok(iv) && iv.tag == crate::version::LATEST_TAG@,
    ensures
        plan_spec(ReadJobConfig::Docker { image }) == TaskPlanView::Publish(
            crate::freshness::UpdatedVersionView::UpToDate { version: crate::version::LATEST_TAG@ },
        ),
{
}

/// A container task whose image holds an unexpanded template variable (`$`)
/// is skipped, and asks no registry.
pub proof fn lemma_template_image_skipped(image: String)
    requires
        image@.contains('$'),
    ensures
        plan_spec(ReadJobConfig::Docker { image }) is Skip,
{
}

/// A task with an outcome is published in its cycle, whatever became of the
/// other tasks of its job or of other jobs.
pub proof fn lemma_cycle_isolation(tasks: Seq<TaskRef>, outcomes: Seq<Option<UpdatedVersion>>, i: int)
    requires
        tasks.len() == outcomes.len(),
        0 <= i < tasks.len(),
        outcomes[i] is Some,
    ensures
        exists|k: int|
            0 <= k < updates_spec(tasks, outcomes).len() && #[trigger] updates_spec(tasks, outcomes)[k]
                == (GaugeUpdate {
                job: tasks[i].job,
                group: tasks[i].group,
                task: tasks[i].task,
                version: outcomes[i]->0,
            }),
    decreases tasks.len(),
{
    let us = updates_spec(tasks, outcomes);
    let pre = updates_spec(tasks.drop_last(), outcomes.drop_last());
    if i == tasks.len() - 1 {
        assert(us[pre.len() as int] == (GaugeUpdate {
            job: tasks[i].job,
            group: tasks[i].group,
            task: tasks[i].task,
            version: outcomes[i]->0,
        }));
    } else {
        lemma_cycle_isolation(tasks.drop_last(), outcomes.drop_last(), i);
        let k = choose|k: int|
            0 <= k < pre.len() && #[trigger] pre[k] == (GaugeUpdate {
                job: tasks.drop_last()[i].job,
                group: tasks.drop_last()[i].group,
                task: tasks.drop_last()[i].task,
                version: outcomes.drop_last()[i]->0,
            });
        assert(us[k] == pre[k]);
    }
}

} // verus!
