//! The texts a new script starts from, by type: each is a Handlebars template
//! over the script's birthplace and the content given on the command line.
use crate::script_type::{ScriptFullType, ScriptType};
use crate::text::str_eq;
use vstd::prelude::*;

verus! {

pub const DEFAULT_WELCOME_MSG: &'static str = "{{#each content}}{{{this}}}
{{/each}}";

pub const SHELL_WELCOME_MSG: &'static str = "# [HS_HELP]: Help message goes here...
# [HS_ENV]: VAR -> Description for env var `VAR` goes here
# [HS_ENV_HELP]: VAR2 -> Description for `VAR2` goes here, BUT won't be recorded

set -eu
{{#if birthplace_in_home}}
cd ~/{{birthplace_rel}}
{{else}}
cd {{birthplace}}
{{/if}}
{{#each content}}{{{this}}}
{{/each}}";

pub const JS_WELCOME_MSG: &'static str = "// [HS_HELP]: Help message goes here...
// [HS_ENV]: VAR -> Description for env var `VAR` goes here
// [HS_ENV_HELP]: VAR2 -> Description for `VAR2` goes here, BUT won't be recorded

process.chdir(require('os').homedir());
{{#if birthplace_in_home}}
process.chdir(process.env.HOME);
process.chdir('{{birthplace_rel}}');
{{else}}
process.chdir('{{birthplace}}');
{{/if}}
let spawn = require('child_process').spawnSync;
spawn('test', [], { stdio: 'inherit' });

let writeFile = require('fs').writeFileSync;
writeFile('/dev/null', 'some content');

{{#each content}}{{{this}}}
{{/each}}";

pub const TMUX_WELCOME_MSG: &'static str = "# [HS_HELP]: Help message goes here...
# [HS_ENV]: VAR -> Description for env var `VAR` goes here
# [HS_ENV_HELP]: VAR2 -> Description for `VAR2` goes here, BUT won't be recorded

NAME=${NAME/./_}
tmux has-session -t=$NAME
if [ $? = 0 ]; then
    echo attach to existing session
    tmux -2 attach-session -t $NAME
    exit
fi

set -eu
{{#if birthplace_in_home}}
cd ~/{{birthplace_rel}}
{{else}}
cd {{birthplace}}
{{/if}}
tmux new-session -s $NAME -d \"{{{content.0}}}; $SHELL\" || exit 1
tmux split-window -h \"{{{content.1}}}; $SHELL\"
{{#if content.2}}tmux split-window -v \"{{{content.2}}}; $SHELL\"
{{/if}}
tmux -2 attach-session -d";

pub const RB_WELCOME_MSG: &'static str = "# [HS_HELP]: Help message goes here...
# [HS_ENV]: VAR -> Description for env var `VAR` goes here
# [HS_ENV_HELP]: VAR2 -> Description for `VAR2` goes here, BUT won't be recorded
{{#if birthplace_in_home}}
Dir.chdir(\"#{ENV['HOME']}/{{birthplace_rel}}\")
{{else}}
Dir.chdir(\"{{birthplace}}\")
{{/if}}
{{#each content}}{{{this}}}
{{/each}}";

pub const RB_CD_WELCOME_MSG: &'static str =
"{{#if birthplace_in_home}}BASE = \"#{ENV['HOME']}/{{birthplace_rel}}\"
{{else}}BASE = '{{birthplace}}'
{{/if}}
require File.realpath(\"#{ENV['HS_HOME']}/util/common.rb\")
require 'set'

def cd(dir)
  File.open(HS_ENV.env_var(:source), 'w') do |file|
    file.write(\"cd #{BASE}/#{dir}\")
  end
  exit
end

cd(ARGV[0]) if ARGV != []

Dir.chdir(BASE)
dirs_set = Dir.entries('.').select do |c|
  !c.start_with?('.') && File.directory?(c)
end.to_set
dirs_set.add('.')

history_arr = HS_ENV.do_hs(\"history show =#{HS_ENV.env_var(:name)}!\", false).lines.map(&:strip).reject(&:empty?)

history_arr = history_arr.select do |d|
  if dirs_set.include?(d)
    dirs_set.delete(d)
    true
  else
    false
  end
end

require_relative \"#{ENV['HS_HOME']}/util/selector.rb\"
selector = Selector.new
selector.load(history_arr + dirs_set.to_a)
is_dot = false
selector.register_keys('.', lambda { |_, _|
  is_dot = true
}, msg: 'go to \".\"')

dir = begin
  content = selector.run.content
  if is_dot
    '.'
  else
    content
  end
rescue Selector::Empty
  warn 'empty'
  exit 1
rescue Selector::Quit
  warn 'quit'
  exit
end

HS_ENV.do_hs(\"run --dummy =#{HS_ENV.env_var(:name)}! #{dir}\", false)
cd(dir)";

pub const RB_TRAVERSE_WELCOME_MSG: &'static str = "# [HS_HELP]: Help message goes here...
# [HS_ENV]: VAR -> Description for env var `VAR` goes here
# [HS_ENV_HELP]: VAR2 -> Description for `VAR2` goes here, BUT won't be recorded

def directory_tree(path)
  files = []
  Dir.foreach(path) do |entry|
    next if ['..', '.'].include?(entry)

    full_path = File.join(path, entry)
    if File.directory?(full_path)
      directory_tree(full_path).each do |f|
        files.push(f)
      end
    else
      files.push(full_path)
    end
  end
  files
end
{{#if birthplace_in_home}}
Dir.chdir(\"#{ENV['HOME']}/{{birthplace_rel}}\")
{{else}}
Dir.chdir(\"{{birthplace}}\")
{{/if}}
directory_tree('.').each do |full_path|
  {{#each content}}{{{this}}}
  {{else}} # TODO{{/each}}
end";

/// The template a new script of type `ty`, with sub-type `sub`, starts from; a
/// type with no template of its own starts from the plain one.
pub open spec fn default_template(ty: (Seq<char>, Option<Seq<char>>)) -> Seq<char> {
    if ty.0 == "sh"@ {
        SHELL_WELCOME_MSG@
    } else if ty.0 == "tmux"@ {
        TMUX_WELCOME_MSG@
    } else if ty.0 == "js"@ || ty.0 == "js-i"@ {
        JS_WELCOME_MSG@
    } else if ty.0 == "rb"@ {
        match ty.1 {
            Some(s) => if s == "traverse"@ {
                RB_TRAVERSE_WELCOME_MSG@
            } else if s == "cd"@ {
                RB_CD_WELCOME_MSG@
            } else {
                RB_WELCOME_MSG@
            },
            None => RB_WELCOME_MSG@,
        }
    } else {
        DEFAULT_WELCOME_MSG@
    }
}

/// The types that have a template, each with its template, in the order the
/// default types are listed.
pub open spec fn default_templates() -> Seq<((Seq<char>, Option<Seq<char>>), Seq<char>)> {
    seq![
        (("sh"@, None), SHELL_WELCOME_MSG@),
        (("tmux"@, None), TMUX_WELCOME_MSG@),
        (("js"@, None), JS_WELCOME_MSG@),
        (("js-i"@, None), JS_WELCOME_MSG@),
        (("rb"@, None), RB_WELCOME_MSG@),
        (("rb"@, Some("traverse"@)), RB_TRAVERSE_WELCOME_MSG@),
        (("rb"@, Some("cd"@)), RB_CD_WELCOME_MSG@),
        (("txt"@, None), DEFAULT_WELCOME_MSG@),
    ]
}

/// The template a new script of type `ty` starts from.
pub fn get_default_template(ty: &ScriptFullType) -> (r: &'static str)
    ensures
        r@ == default_template(ty@),
{
    let t = ty.ty.as_ref();
    if str_eq(t, "sh") {
        SHELL_WELCOME_MSG
    } else if str_eq(t, "tmux") {
        TMUX_WELCOME_MSG
    } else if str_eq(t, "js") || str_eq(t, "js-i") {
        JS_WELCOME_MSG
    } else if str_eq(t, "rb") {
        match &ty.sub {
            Some(s) => if str_eq(s.as_ref(), "traverse") {
                RB_TRAVERSE_WELCOME_MSG
            } else if str_eq(s.as_ref(), "cd") {
                RB_CD_WELCOME_MSG
            } else {
                RB_WELCOME_MSG
            },
            None => RB_WELCOME_MSG,
        }
    } else {
        DEFAULT_WELCOME_MSG
    }
}

fn full_type(ty: &str, sub: Option<&str>) -> (r: ScriptFullType)
    ensures
        r@ == (ty@, match sub {
            Some(s) => Some(s@),
            None => None::<Seq<char>>,
        }),
{
    let sub = match sub {
        Some(s) => Some(ScriptType::new_unchecked(s.to_owned())),
        None => None,
    };
    ScriptFullType { ty: ScriptType::new_unchecked(ty.to_owned()), sub }
}

/// Every type that has a template, with its template.
pub fn iter_default_templates() -> (r: Vec<(ScriptFullType, &'static str)>)
    ensures
        r@.len() == default_templates().len(),
        forall|i: int| 0 <= i < r@.len() ==> (#[trigger] r@[i]).0@ == default_templates()[i].0 && r@[i].1@
            == default_templates()[i].1,
{
    let mut r: Vec<(ScriptFullType, &'static str)> = Vec::new();
    r.push((full_type("sh", None), SHELL_WELCOME_MSG));
    r.push((full_type("tmux", None), TMUX_WELCOME_MSG));
    r.push((full_type("js", None), JS_WELCOME_MSG));
    r.push((full_type("js-i", None), JS_WELCOME_MSG));
    r.push((full_type("rb", None), RB_WELCOME_MSG));
    r.push((full_type("rb", Some("traverse")), RB_TRAVERSE_WELCOME_MSG));
    r.push((full_type("rb", Some("cd")), RB_CD_WELCOME_MSG));
    r.push((full_type("txt", None), DEFAULT_WELCOME_MSG));
    r
}

/// Each listed type starts from the template listed with it.
pub proof fn law_listed_templates_agree()
    ensures
        forall|i: int|
            0 <= i < default_templates().len() ==> default_template((#[trigger] default_templates()[i]).0)
                == default_templates()[i].1,
{
    reveal_strlit("sh");
    reveal_strlit("tmux");
    reveal_strlit("js");
    reveal_strlit("js-i");
    reveal_strlit("rb");
    reveal_strlit("traverse");
    reveal_strlit("cd");
    reveal_strlit("txt");
    let d = default_templates();
    // The type names differ in length or in their first letter.
    assert("sh"@.len() != "tmux"@.len());
    assert("sh"@[0] != "js"@[0]);
    assert("sh"@.len() != "js-i"@.len());
    assert("sh"@[0] != "rb"@[0]);
    assert("sh"@.len() != "txt"@.len());
    assert("tmux"@.len() != "js"@.len());
    assert("tmux"@[0] != "js-i"@[0]);
    assert("tmux"@.len() != "rb"@.len());
    assert("tmux"@.len() != "txt"@.len());
    assert("js"@.len() != "js-i"@.len());
    assert("js"@[0] != "rb"@[0]);
    assert("js"@.len() != "txt"@.len());
    assert("js-i"@.len() != "rb"@.len());
    assert("js-i"@.len() != "txt"@.len());
    assert("rb"@.len() != "txt"@.len());
    assert("traverse"@.len() != "cd"@.len());
    assert(d[0] == (("sh"@, None::<Seq<char>>), SHELL_WELCOME_MSG@));
    assert(default_template(d[0].0) == d[0].1);
    assert(d[1] == (("tmux"@, None::<Seq<char>>), TMUX_WELCOME_MSG@));
    assert(default_template(d[1].0) == d[1].1);
    assert(d[2] == (("js"@, None::<Seq<char>>), JS_WELCOME_MSG@));
    assert(default_template(d[2].0) == d[2].1);
    assert(d[3] == (("js-i"@, None::<Seq<char>>), JS_WELCOME_MSG@));
    assert(default_template(d[3].0) == d[3].1);
    assert(d[4] == (("rb"@, None::<Seq<char>>), RB_WELCOME_MSG@));
    assert(default_template(d[4].0) == d[4].1);
    assert(d[5] == (("rb"@, Some("traverse"@)), RB_TRAVERSE_WELCOME_MSG@));
    assert(default_template(d[5].0) == d[5].1);
    assert(d[6] == (("rb"@, Some("cd"@)), RB_CD_WELCOME_MSG@));
    assert(default_template(d[6].0) == d[6].1);
    assert(d[7] == (("txt"@, None::<Seq<char>>), DEFAULT_WELCOME_MSG@));
    assert(default_template(d[7].0) == d[7].1);
}

} // verus!
