//! The prompt handed to an agent when a run starts, and the skills it loads.
use vstd::prelude::*;
use crate::model::{Project, Session, SessionView, Skill, SkillView, MessageView, skill_views, message_views};
use crate::text::{join, join_seq, views, cat, owned, text_eq};

verus! {

/// The line that tells the agent where it runs.
pub open spec fn prompt_intro() -> Seq<char> {
    "You are running inside an internal Codex-like workbench. Continue the current project session and respond with useful progress and results."@
}

/// How a loaded skill appears in the prompt.
pub open spec fn skill_entry(s: SkillView) -> Seq<char> {
    "- "@ + s.title + "\n"@ + s.body
}

/// How a message of the history appears in the prompt.
pub open spec fn history_line(m: MessageView) -> Seq<char> {
    m.role + ": "@ + m.content
}

pub open spec fn skill_entries(skills: Seq<SkillView>) -> Seq<Seq<char>> {
    skills.map_values(|s: SkillView| skill_entry(s))
}

pub open spec fn history_lines(messages: Seq<MessageView>) -> Seq<Seq<char>> {
    messages.map_values(|m: MessageView| history_line(m))
}

/// The prompt: the project path, the introduction, the skills when there are
/// any, and the session's history, separated by blank lines.
pub open spec fn prompt_text(path: Seq<char>, session: SessionView, skills: Seq<SkillView>) -> Seq<char> {
    let head = seq!["Project path: "@ + path, prompt_intro()];
    let parts = if skills.len() > 0 {
        head.push("Loaded skills:\n"@ + join_seq(skill_entries(skills), "\n\n"@))
    } else {
        head
    };
    join_seq(
        parts.push("Session history:\n"@ + join_seq(history_lines(session.messages), "\n\n"@)),
        "\n\n"@,
    )
}

/// Builds the prompt for a run in `session` of `project`.
pub fn build_prompt(project: &Project, session: &Session, selected_skills: &Vec<Skill>) -> (r: String)
    ensures
        r@ == prompt_text(project.path@, session@, skill_views(selected_skills@)),
{
    let mut parts: Vec<String> = Vec::new();
    parts.push(cat("Project path: ", project.path.as_str()));
    parts.push(
        owned(
            "You are running inside an internal Codex-like workbench. Continue the current project session and respond with useful progress and results.",
        ),
    );
    let ghost head = seq!["Project path: "@ + project.path@, prompt_intro()];
    assert(views(parts@) =~= head);
    if selected_skills.len() > 0 {
        let mut entries: Vec<String> = Vec::new();
        let mut i: usize = 0;
        while i < selected_skills.len()
            invariant
                i <= selected_skills@.len(),
                views(entries@) == skill_entries(skill_views(selected_skills@)).subrange(0, i as int),
            decreases selected_skills.len() - i,
        {
            let s = &selected_skills[i];
            let entry = cat(cat(cat("- ", s.title.as_str()).as_str(), "\n").as_str(), s.body.as_str());
            let ghost before = entries@;
            entries.push(entry);
            proof {
                assert(views(entries@) =~= views(before).push(entry@));
            }
            i = i + 1;
            assert(views(entries@) =~= skill_entries(skill_views(selected_skills@)).subrange(0, i as int));
        }
        assert(skill_entries(skill_views(selected_skills@)).subrange(0, i as int) =~= skill_entries(
            skill_views(selected_skills@),
        ));
        let body = join(&entries, "\n\n");
        let ghost before = parts@;
        parts.push(cat("Loaded skills:\n", body.as_str()));
        proof {
            assert(views(parts@) =~= views(before).push(("Loaded skills:\n"@ + body@)));
        }
    }
    let mut lines: Vec<String> = Vec::new();
    let mut j: usize = 0;
    while j < session.messages.len()
        invariant
            j <= session.messages@.len(),
            views(lines@) == history_lines(message_views(session.messages@)).subrange(0, j as int),
        decreases session.messages.len() - j,
    {
        let m = &session.messages[j];
        let line = cat(cat(m.role.as_str(), ": ").as_str(), m.content.as_str());
        let ghost before = lines@;
        lines.push(line);
        proof {
            assert(views(lines@) =~= views(before).push(line@));
        }
        j = j + 1;
        assert(views(lines@) =~= history_lines(message_views(session.messages@)).subrange(0, j as int));
    }
    assert(history_lines(message_views(session.messages@)).subrange(0, j as int) =~= history_lines(
        message_views(session.messages@),
    ));
    let history = join(&lines, "\n\n");
    let ghost before = parts@;
    parts.push(cat("Session history:\n", history.as_str()));
    proof {
        assert(views(parts@) =~= views(before).push(("Session history:\n"@ + history@)));
    }
    join(&parts, "\n\n")
}

/// Whether the id is among `ids`.
pub open spec fn listed(ids: Seq<Seq<char>>, id: Seq<char>) -> bool {
    exists|k: int| 0 <= k < ids.len() && ids[k] == id
}

/// The skills, in their order, whose ids the session lists.
pub open spec fn selected_skills(skills: Seq<SkillView>, ids: Seq<Seq<char>>) -> Seq<SkillView>
    decreases skills.len(),
{
    if skills.len() == 0 {
        Seq::empty()
    } else {
        let rest = selected_skills(skills.drop_last(), ids);
        if listed(ids, skills.last().id) {
            rest.push(skills.last())
        } else {
            rest
        }
    }
}

/// Whether `id` is one of `ids`.
pub fn contains_id(ids: &Vec<String>, id: &str) -> (b: bool)
    ensures
        b == listed(views(ids@), id@),
{
    let mut i: usize = 0;
    while i < ids.len()
        invariant
            i <= ids@.len(),
            forall|k: int| 0 <= k < i ==> views(ids@)[k] != id@,
        decreases ids.len() - i,
    {
        if text_eq(ids[i].as_str(), id) {
            assert(views(ids@)[i as int] == id@);
            return true;
        }
        i = i + 1;
    }
    false
}

/// The skills that a session has chosen, in the order of `skills`.
pub fn select_skills(skills: &Vec<Skill>, skill_ids: &Vec<String>) -> (r: Vec<Skill>)
    ensures
        skill_views(r@) == selected_skills(skill_views(skills@), views(skill_ids@)),
{
    let mut out: Vec<Skill> = Vec::new();
    let mut i: usize = 0;
    while i < skills.len()
        invariant
            i <= skills@.len(),
            skill_views(out@) == selected_skills(skill_views(skills@).subrange(0, i as int), views(skill_ids@)),
        decreases skills.len() - i,
    {
        let ghost sub = skill_views(skills@).subrange(0, i + 1);
        assert(sub.drop_last() =~= skill_views(skills@).subrange(0, i as int));
        if contains_id(skill_ids, skills[i].id.as_str()) {
            let s = skills[i].clone();
            let ghost before = out@;
            out.push(s);
            assert(skill_views(out@) =~= skill_views(before).push(s@));
        }
        i = i + 1;
    }
    assert(skill_views(skills@).subrange(0, skills@.len() as int) =~= skill_views(skills@));
    out
}

} // verus!
