# selinux_why

Audit events that tell of a denied access say what was denied, not why. This library adds the
reason: it reads from each SELinux AVC record what was asked of the policy, has a native shim
around libsepol find out which rule, boolean, constraint, role or bound decided, and writes
`SELINUX_WHY` and `SELINUX_WHY_DETAIL` into the record.

- `src/` is the library, verified with Verus. It makes no native call itself: whenever the next
  decision depends on the shim, it returns the call that is to be made and is continued with
  the outcome.
- `app/` makes those calls and writes the log.
- `tests/` runs the library on concrete events.

| module | what it holds |
| --- | --- |
| `runtime` | the processing of an event, step by step |
| `enrich` | going through the records of an event |
| `analyzer` | the meaning of the shim's answers |
| `cache` | the decisions that are remembered, the least recently used first |
| `query` | what a record asks of the policy, in a normal form |
| `attach` | writing an explanation into a record |
| `event`, `audit` | events, and the message bodies of `linux_audit_parser` |
| `why`, `error`, `native` | reasons, errors and log lines, and the shim's numbers |
| `disabled` | the runtime of a build without the shim |
| `laws` | what holds of the processing as a whole |
