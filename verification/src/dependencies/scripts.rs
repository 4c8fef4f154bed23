//! Console scripts: the entry points that a package declares and the launcher
//! files written for them.

use vstd::prelude::*;
use crate::engine::text::{
    chars_of, concat, head_until, lemma_head_until, same_text, string_of, tail_from, take_until,
    trim, trimmed,
};

verus! {

/// The pieces of `s` between the occurrences of `sep`.
pub open spec fn pieces(s: Seq<char>, sep: char) -> Seq<Seq<char>>
    decreases s.len(),
{
    if s.len() == 0 {
        seq![Seq::empty()]
    } else {
        let head = pieces(s.drop_last(), sep);
        if s.last() == sep {
            head.push(Seq::empty())
        } else {
            head.drop_last().push(head.last().push(s.last()))
        }
    }
}

/// There is always at least one piece.
pub proof fn lemma_pieces_nonempty(s: Seq<char>, sep: char)
    ensures
        pieces(s, sep).len() >= 1,
    decreases s.len(),
{
    if s.len() > 0 {
        lemma_pieces_nonempty(s.drop_last(), sep);
    }
}

/// Each list of characters of `items` as text.
pub open spec fn rows(items: Seq<Vec<char>>) -> Seq<Seq<char>> {
    items.map_values(|v: Vec<char>| v@)
}

/// Splits `s` at every occurrence of `sep`.
pub fn split(s: &Vec<char>, sep: char) -> (r: Vec<Vec<char>>)
    ensures
        rows(r@) == pieces(s@, sep),
{
    let mut done: Vec<Vec<char>> = Vec::new();
    let mut current: Vec<char> = Vec::new();
    let mut i: usize = 0;
    assert(s@.take(0) =~= Seq::empty());
    assert(rows(done@).push(current@) =~= pieces(s@.take(0), sep));
    while i < s.len()
        invariant
            i <= s.len(),
            rows(done@).push(current@) == pieces(s@.take(i as int), sep),
        decreases s.len() - i,
    {
        proof {
            let t = s@.take(i + 1);
            assert(t.drop_last() =~= s@.take(i as int));
            assert(t.last() == s@[i as int]);
        }
        let ghost before_done = rows(done@);
        let ghost before_current = current@;
        if s[i] == sep {
            done.push(current);
            current = Vec::new();
            assert(rows(done@) =~= before_done.push(before_current));
        } else {
            current.push(s[i]);
            assert(before_done.push(before_current).drop_last() =~= before_done);
        }
        i += 1;
    }
    assert(s@.take(s.len() as int) =~= s@);
    let ghost before_done = rows(done@);
    done.push(current);
    assert(rows(done@) =~= before_done.push(current@));
    done
}

/// A console script that a package declares: the command `name` calls
/// `function` of `module`.
#[derive(Debug)]
pub struct ConsoleScript {
    pub name: String,
    pub module: String,
    pub function: String,
}

/// A `ConsoleScript` as plain text fields.
pub struct ConsoleScriptView {
    pub name: Seq<char>,
    pub module: Seq<char>,
    pub function: Seq<char>,
}

impl View for ConsoleScript {
    type V = ConsoleScriptView;

    open spec fn view(&self) -> ConsoleScriptView {
        ConsoleScriptView { name: self.name@, module: self.module@, function: self.function@ }
    }
}

/// Each script of `items` as plain text fields.
pub open spec fn script_views(items: Seq<ConsoleScript>) -> Seq<ConsoleScriptView> {
    items.map_values(|s: ConsoleScript| s@)
}

/// The script that a line `name = module:function [extras]` declares;
/// nothing for a line without `=` or a target without `:`.
pub open spec fn script_of_line(line: Seq<char>) -> Option<ConsoleScriptView> {
    let left = head_until(line, seq!['=']);
    if left.len() == line.len() {
        None
    } else {
        let target = head_until(trimmed(line.skip(left.len() as int + 1)), seq![' ']);
        let module = head_until(target, seq![':']);
        if module.len() == target.len() {
            None
        } else {
            Some(
                ConsoleScriptView {
                    name: trimmed(left),
                    module,
                    function: target.skip(module.len() as int + 1),
                },
            )
        }
    }
}

/// Reads the script that a line declares.
pub fn parse_script_line(line: &Vec<char>) -> (r: Option<ConsoleScript>)
    ensures
        match r {
            Some(s) => script_of_line(line@) == Some(s@),
            None => script_of_line(line@).is_none(),
        },
{
    let equals: Vec<char> = vec!['='];
    let blank: Vec<char> = vec![' '];
    let colon: Vec<char> = vec![':'];
    assert(equals@ == seq!['='] && blank@ == seq![' '] && colon@ == seq![':']);
    let left = take_until(line, &equals);
    proof {
        lemma_head_until(line@, equals@);
    }
    if left.len() == line.len() {
        return None;
    }
    let right = trim(&tail_from(line, left.len() + 1));
    let target = take_until(&right, &blank);
    let module = take_until(&target, &colon);
    proof {
        lemma_head_until(target@, colon@);
    }
    if module.len() == target.len() {
        return None;
    }
    let function = tail_from(&target, module.len() + 1);
    Some(
        ConsoleScript {
            name: string_of(&trim(&left)),
            module: string_of(&module),
            function: string_of(&function),
        },
    )
}

/// Where the reading of an entry-points file stands: whether the lines read
/// last belong to the section `[console_scripts]`, and the scripts found.
pub open spec fn scanned(lines: Seq<Seq<char>>) -> (bool, Seq<ConsoleScriptView>)
    decreases lines.len(),
{
    if lines.len() == 0 {
        (false, Seq::empty())
    } else {
        let (inside, found) = scanned(lines.drop_last());
        let line = trimmed(lines.last());
        if line.len() == 0 {
            (inside, found)
        } else if line == "[console_scripts]"@ {
            (true, found)
        } else if line[0] == '[' {
            (false, found)
        } else if inside {
            match script_of_line(line) {
                Some(s) => (true, found.push(s)),
                None => (true, found),
            }
        } else {
            (false, found)
        }
    }
}

/// The console scripts that an entry-points file declares, in file order:
/// those of the lines of the section `[console_scripts]`.
pub open spec fn declared_scripts(content: Seq<char>) -> Seq<ConsoleScriptView> {
    scanned(pieces(content, '\n')).1
}

/// Reads the console scripts from the text of an entry-points file.
pub fn console_scripts(content: &str) -> (r: Vec<ConsoleScript>)
    ensures
        script_views(r@) == declared_scripts(content@),
{
    let lines = split(&chars_of(content), '\n');
    let ghost all = rows(lines@);
    let mut found: Vec<ConsoleScript> = Vec::new();
    let mut inside = false;
    let mut i: usize = 0;
    assert(all.take(0) =~= Seq::empty());
    assert(script_views(found@) =~= Seq::empty());
    while i < lines.len()
        invariant
            i <= lines.len(),
            all == rows(lines@),
            all == pieces(content@, '\n'),
            (inside, script_views(found@)) == scanned(all.take(i as int)),
        decreases lines.len() - i,
    {
        proof {
            let t = all.take(i + 1);
            assert(t.drop_last() =~= all.take(i as int));
            assert(t.last() == lines@[i as int]@);
        }
        let line = trim(&lines[i]);
        if line.len() == 0 {
        } else if same_text(string_of(&line).as_str(), "[console_scripts]") {
            inside = true;
        } else if line[0] == '[' {
            inside = false;
        } else if inside {
            match parse_script_line(&line) {
                Some(s) => {
                    let ghost before = found@;
                    found.push(s);
                    assert(script_views(found@) =~= script_views(before).push(s@));
                },
                None => {},
            }
        }
        i += 1;
    }
    assert(all.take(lines.len() as int) =~= all);
    found
}

/// The Python launcher of a console script.
pub open spec fn launcher_text(module: Seq<char>, function: Seq<char>) -> Seq<char> {
    "import sys\nfrom "@ + module + " import "@ + function
        + "\nif __name__ == '__main__':\n    sys.exit("@ + function + "())"@
}

/// The batch file that starts a launcher on Windows.
pub open spec fn batch_text(name: Seq<char>) -> Seq<char> {
    "@echo off\nset PYTHONPATH=%~dp0\\..\\Lib\\site-packages;%PYTHONPATH%\npython \"%~dp0\\"@
        + name + "-script.py\" %*"@
}

/// The shell script that starts a launcher elsewhere.
pub open spec fn shell_text(name: Seq<char>, python_version: Seq<char>) -> Seq<char> {
    "#!/bin/sh\nexport PYTHONPATH=\"$(dirname \"$0\")/../lib/python"@ + python_version
        + "/site-packages:$PYTHONPATH\"\n\"$(dirname \"$0\")/python\" \"$(dirname \"$0\")/"@ + name
        + "-script.py\" \"$@\""@
}

/// A file to write into the scripts directory.
#[derive(Debug)]
pub struct ScriptFile {
    pub name: String,
    pub content: String,
    pub executable: bool,
}

/// The two files that make a console script a command: the Python launcher
/// `<name>-script.py`, and what starts it, `<name>.bat` on Windows and the
/// executable shell script `<name>` elsewhere.
pub fn script_files(script: &ConsoleScript, python_version: &str, windows: bool) -> (r: (
    ScriptFile,
    ScriptFile,
))
    ensures
        r.0.name@ == script@.name + "-script.py"@,
        r.0.content@ == launcher_text(script@.module, script@.function),
        !r.0.executable,
        r.1.name@ == if windows {
            script@.name + ".bat"@
        } else {
            script@.name
        },
        r.1.content@ == if windows {
            batch_text(script@.name)
        } else {
            shell_text(script@.name, python_version@)
        },
        r.1.executable == !windows,
{
    let name = script.name.as_str();
    let a = concat("import sys\nfrom ", script.module.as_str());
    let b = concat(a.as_str(), " import ");
    let c = concat(b.as_str(), script.function.as_str());
    let d = concat(c.as_str(), "\nif __name__ == '__main__':\n    sys.exit(");
    let e = concat(d.as_str(), script.function.as_str());
    let launcher = ScriptFile {
        name: concat(name, "-script.py"),
        content: concat(e.as_str(), "())"),
        executable: false,
    };
    let starter = if windows {
        let head = concat(
            "@echo off\nset PYTHONPATH=%~dp0\\..\\Lib\\site-packages;%PYTHONPATH%\npython \"%~dp0\\",
            name,
        );
        ScriptFile {
            name: concat(name, ".bat"),
            content: concat(head.as_str(), "-script.py\" %*"),
            executable: false,
        }
    } else {
        let p = concat(
            "#!/bin/sh\nexport PYTHONPATH=\"$(dirname \"$0\")/../lib/python",
            python_version,
        );
        let q = concat(
            p.as_str(),
            "/site-packages:$PYTHONPATH\"\n\"$(dirname \"$0\")/python\" \"$(dirname \"$0\")/",
        );
        let r = concat(q.as_str(), name);
        ScriptFile {
            name: script.name.clone(),
            content: concat(r.as_str(), "-script.py\" \"$@\""),
            executable: true,
        }
    };
    (launcher, starter)
}

} // verus!
