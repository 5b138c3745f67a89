# sshctx

Persistent, alias-only SSH tools for clients of the Model Context Protocol.

A client starts `sshctx serve`. That process talks to a control center of the
same user, which keeps one SSH connection to each host in use and passes calls
on to an agent there. The control center ends itself after ten idle minutes.

## Layout

- `src/` is the library. Everything in it is verified: the wire format, paging,
  the configuration and its rules, the command lines, the deployment of the
  agent, the bookkeeping of requests and answers, the retry rule, the dispatch
  and the audit records of the control center, and the tools with their push,
  pull and transfer runs. What is taken from other crates stands behind
  wrappers, each with the contract that is relied on.
- `app/` is the program around the library: arguments, files, streams,
  processes and the server of the protocol. The agent that is deployed to a host
  is read from `agent.py` beside the program.
- `tests/` runs the library on concrete values.

## What is proved

- A written frame is read back as it was, whatever follows it; what is read as a
  frame is the wire form of that frame. What is read in the header of a written
  request or response is that request or response, provided that it is not
  nested too deeply and that each fractional number in it has the text that it is
  printed as. Both hold of all that was read from a header, and of every call of
  the tools, except that the operations of a query are passed on as they were
  given. Such a call reaches the control center as that very call.
- Every paged output ends in its trailer, and following the continuations shows
  every line once and in order.
- An accepted configuration has plain aliases, absolute roots and at least one
  operation at a time.
- A client starts a control center only where none answers, and only once.
- A call that may change something is sent once; one that only reads is repeated
  once at most.
- No waiting request is served twice.
- Nothing is carried out before it is on record, and the record holds neither
  arguments nor the text of shell commands.
- A push sends exactly the files whose digests the host does not list, and a
  transfer completes only with the digest of all bytes that were passed on. After
  a call that failed or was refused, neither sends anything more, and a pull asks
  for nothing more.
- Every file of a pull goes below the directory that was asked for, and so does
  its part file where the listed name ends in the name of a file.
- The connection to a host is opened only after a deployment that ended well.
