//! Shell completion scripts.

use vstd::prelude::*;
use crate::error::SpallCliError;

verus! {

/// The bash completion script.
pub const BASH_SCRIPT: &'static str = "#!/bin/bash\n# spall bash completion\n\n_spall() {\n    local cur prev words cword\n    _init_completion || return\n\n    # Count how many non-option words we have before current\n    local non_opt=()\n    for w in \"${words[@]:1:$((cword-1))}\"; do\n        [[ \"$w\" != -* ]] && non_opt+=(\"$w\")\n    done\n\n    local count=${#non_opt[@]}\n\n    if [[ $count -eq 0 ]]; then\n        # Top-level: suggest API names and built-in commands\n        COMPREPLY=( $(compgen -W \"api completions history __complete $(spall api list 2>/dev/null | grep -v '^Registered' | awk '{print $1}')\" -- \"$cur\") )\n    elif [[ $count -eq 1 ]]; then\n        local api=\"${non_opt[0]}\"\n        # Complete operations from __complete helper\n        local ops\n        ops=$(spall __complete \"$api\" \"$cur\" 2>/dev/null)\n        if [[ -n \"$ops\" ]]; then\n            COMPREPLY=( $(compgen -W \"$ops\" -- \"$cur\") )\n        fi\n    fi\n}\n\ncomplete -F _spall spall\n";

/// The zsh completion script.
pub const ZSH_SCRIPT: &'static str = "#compdef spall\n# spall zsh completion\n\n_spall() {\n    local curcontext=\"$curcontext\" state line\n    typeset -A opt_args\n\n    _arguments -C \\\n        '1: :->_spall_apis' \\\n        '*:: :->_spall_ops'\n\n    case \"$state\" in\n        spall_apis\u{29}\n            local apis\n            apis=$(spall api list 2>/dev/null | grep -v '^Registered' | awk '{print $1}')\n            _alternative 'apis:apis:('$apis')'\n            ;;\n        spall_ops\u{29}\n            local api=\"$line[1]\"\n            local ops\n            ops=$(spall __complete \"$api\" \"\" 2>/dev/null | tr '\\n' ' ')\n            _alternative 'ops:ops:('$ops')'\n            ;;\n    esac\n}\n\ncompdef _spall spall\n";

/// The fish completion script.
pub const FISH_SCRIPT: &'static str = "# spall fish completion\n\nfunction __spall_apis\n    spall api list 2>/dev/null | grep -v '^Registered' | awk '{print $1}'\nend\n\nfunction __spall_ops\n    set -l api (commandline -opc)[2]\n    spall __complete \"$api\" \"\" 2>/dev/null\nend\n\ncomplete -c spall -n '__fish_is_first_token' -a 'api completions history __complete'\ncomplete -c spall -n '__fish_is_first_token' -a '(__spall_apis)'\ncomplete -c spall -n 'test (count (commandline -opc)) -eq 2' -a '(__spall_ops)'\n";

/// The error message for a shell without a script.
pub open spec fn unsupported_shell_msg(shell: Seq<char>) -> Seq<char> {
    "Unsupported shell: "@ + shell + ". Supported: bash, zsh, fish"@
}

/// The completion script for a shell name, if there is one.
pub open spec fn script_for(shell: Seq<char>) -> Option<Seq<char>> {
    if shell == "bash"@ {
        Some(BASH_SCRIPT@)
    } else if shell == "zsh"@ {
        Some(ZSH_SCRIPT@)
    } else if shell == "fish"@ {
        Some(FISH_SCRIPT@)
    } else {
        None
    }
}

/// Generate a completion script for the requested shell.
pub fn generate_completions(shell: &str) -> (r: Result<String, SpallCliError>)
    ensures
        match (r, script_for(shell@)) {
            (Ok(s), Some(t)) => s@ == t,
            (Err(SpallCliError::Usage(m)), None) => m@ == unsupported_shell_msg(shell@),
            _ => false,
        },
{
    if crate::json::str_eq(shell, "bash") {
        Ok(generate_bash())
    } else if crate::json::str_eq(shell, "zsh") {
        Ok(generate_zsh())
    } else if crate::json::str_eq(shell, "fish") {
        Ok(generate_fish())
    } else {
        let mut m = String::from_str("Unsupported shell: ");
        m.append(shell);
        m.append(". Supported: bash, zsh, fish");
        Err(SpallCliError::Usage(m))
    }
}

/// The bash completion script.
pub fn generate_bash() -> (r: String)
    ensures
        r@ == BASH_SCRIPT@,
{
    BASH_SCRIPT.to_owned()
}

/// The zsh completion script.
pub fn generate_zsh() -> (r: String)
    ensures
        r@ == ZSH_SCRIPT@,
{
    ZSH_SCRIPT.to_owned()
}

/// The fish completion script.
pub fn generate_fish() -> (r: String)
    ensures
        r@ == FISH_SCRIPT@,
{
    FISH_SCRIPT.to_owned()
}


/// Whether `t` begins with `p`.
pub open spec fn begins(t: Seq<char>, p: Seq<char>) -> bool {
    p.len() <= t.len() && t.subrange(0, p.len() as int) == p
}

/// Each supported shell gets the script written for it, recognisable by its
/// first line: zsh's `#compdef spall`, bash's `#!/bin/bash` and fish's
/// `# spall fish completion`, so that no shell is handed another shell's
/// script; exactly `bash`, `zsh` and `fish` have one.
pub proof fn law_each_shell_gets_its_own_script(shell: Seq<char>)
    ensures
        script_for(shell) is Some <==> (shell == "bash"@ || shell == "zsh"@ || shell == "fish"@),
        script_for(shell) matches Some(t) ==> (begins(t, "#compdef spall"@) <==> shell == "zsh"@),
        script_for(shell) matches Some(t) ==> (begins(t, "#!/bin/bash"@) <==> shell == "bash"@),
        script_for(shell) matches Some(t) ==> (begins(t, "# spall fish completion"@) <==> shell == "fish"@),
{
    reveal_strlit("#!/bin/bash\n# spall bash completion\n\n_spall() {\n    local cur prev words cword\n    _init_completion || return\n\n    # Count how many non-option words we have before current\n    local non_opt=()\n    for w in \"${words[@]:1:$((cword-1))}\"; do\n        [[ \"$w\" != -* ]] && non_opt+=(\"$w\")\n    done\n\n    local count=${#non_opt[@]}\n\n    if [[ $count -eq 0 ]]; then\n        # Top-level: suggest API names and built-in commands\n        COMPREPLY=( $(compgen -W \"api completions history __complete $(spall api list 2>/dev/null | grep -v '^Registered' | awk '{print $1}')\" -- \"$cur\") )\n    elif [[ $count -eq 1 ]]; then\n        local api=\"${non_opt[0]}\"\n        # Complete operations from __complete helper\n        local ops\n        ops=$(spall __complete \"$api\" \"$cur\" 2>/dev/null)\n        if [[ -n \"$ops\" ]]; then\n            COMPREPLY=( $(compgen -W \"$ops\" -- \"$cur\") )\n        fi\n    fi\n}\n\ncomplete -F _spall spall\n");
    reveal_strlit("#compdef spall\n# spall zsh completion\n\n_spall() {\n    local curcontext=\"$curcontext\" state line\n    typeset -A opt_args\n\n    _arguments -C \\\n        '1: :->_spall_apis' \\\n        '*:: :->_spall_ops'\n\n    case \"$state\" in\n        spall_apis\u{29}\n            local apis\n            apis=$(spall api list 2>/dev/null | grep -v '^Registered' | awk '{print $1}')\n            _alternative 'apis:apis:('$apis')'\n            ;;\n        spall_ops\u{29}\n            local api=\"$line[1]\"\n            local ops\n            ops=$(spall __complete \"$api\" \"\" 2>/dev/null | tr '\\n' ' ')\n            _alternative 'ops:ops:('$ops')'\n            ;;\n    esac\n}\n\ncompdef _spall spall\n");
    reveal_strlit("# spall fish completion\n\nfunction __spall_apis\n    spall api list 2>/dev/null | grep -v '^Registered' | awk '{print $1}'\nend\n\nfunction __spall_ops\n    set -l api (commandline -opc)[2]\n    spall __complete \"$api\" \"\" 2>/dev/null\nend\n\ncomplete -c spall -n '__fish_is_first_token' -a 'api completions history __complete'\ncomplete -c spall -n '__fish_is_first_token' -a '(__spall_apis)'\ncomplete -c spall -n 'test (count (commandline -opc)) -eq 2' -a '(__spall_ops)'\n");
    reveal_strlit("#compdef spall");
    reveal_strlit("#!/bin/bash");
    reveal_strlit("# spall fish completion");
    reveal_strlit("bash");
    reveal_strlit("zsh");
    reveal_strlit("fish");
    let b = BASH_SCRIPT@;
    let z = ZSH_SCRIPT@;
    let f = FISH_SCRIPT@;
    assert(b.subrange(0, 11) =~= "#!/bin/bash"@);
    assert(z.subrange(0, 14) =~= "#compdef spall"@);
    assert(f.subrange(0, 23) =~= "# spall fish completion"@);
    assert(b.subrange(0, 14) != "#compdef spall"@) by { assert(b.subrange(0, 14)[1] == '!'); }
    assert(f.subrange(0, 14) != "#compdef spall"@) by { assert(f.subrange(0, 14)[1] == ' '); }
    assert(z.subrange(0, 11) != "#!/bin/bash"@) by { assert(z.subrange(0, 11)[1] == 'c'); }
    assert(f.subrange(0, 11) != "#!/bin/bash"@) by { assert(f.subrange(0, 11)[1] == ' '); }
    assert(b.subrange(0, 23) != "# spall fish completion"@) by { assert(b.subrange(0, 23)[1] == '!'); }
    assert(z.subrange(0, 23) != "# spall fish completion"@) by { assert(z.subrange(0, 23)[1] == 'c'); }
    assert(begins(b, "#!/bin/bash"@) && !begins(b, "#compdef spall"@) && !begins(b, "# spall fish completion"@));
    assert(begins(z, "#compdef spall"@) && !begins(z, "#!/bin/bash"@) && !begins(z, "# spall fish completion"@));
    assert(begins(f, "# spall fish completion"@) && !begins(f, "#compdef spall"@) && !begins(f, "#!/bin/bash"@));
    assert("bash"@ != "zsh"@ && "bash"@ != "fish"@ && "zsh"@ != "fish"@) by {
        assert("bash"@.len() != "zsh"@.len());
        assert("zsh"@.len() != "fish"@.len());
        assert("bash"@[0] != "fish"@[0]);
    }
}

} // verus!
