# tabbify_broker

A credential broker for one workspace. It holds the git capability URLs and the
forge owner credentials, performs git and forge operations with them, and answers
with results, never with a credential.

The library in `src/` decides everything and is verified with Verus; `app/` is the
process around it: files, sockets, git and HTTP.

| module | what it holds |
| --- | --- |
| `text`, `search`, `lines`, `order` | text as sequences of characters |
| `contract`, `request` | what crosses the socket |
| `creds` | credential custody: loading, listing by name, dropping |
| `authorized_keys` | checking and appending an SSH key |
| `json` | reading members of a JSON document |
| `frame`, `reading`, `http_ctrl`, `http_laws` | the control endpoint |
| `git_ops` | git commands and their sanitized output |
| `forge` and below | the forge: calls, replies, files, push capabilities, sessions |
| `dispatch` | what a request comes to |

An operation that reaches outside is a sequence of steps. The library says what
to do next and reads what came of it; `app/` does it.

Laws about several operations are the public proof functions whose names begin
with `law_`. What the library relies on without proof is marked
`external_body` or `assume_specification`, each with the outside function it
stands for.
