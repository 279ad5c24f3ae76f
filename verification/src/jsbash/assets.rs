//! The sources of the sidecar, which setting up writes to disk.

use vstd::prelude::*;

verus! {

/// The sidecar: it reads requests from its standard input, one JSON object per
/// line, and serves them with a `just-bash` virtual shell.
pub const SERVER_MJS: &'static str = "// jsbash sidecar: serves a just-bash virtual shell over stdio.
//
// One JSON object per line in each direction. A request is
//   {id, op, script?, stdin?, cwd?, timeoutMs?, path?, content?}
// and its response carries the same id:
//   {id, ok, stdout?, stderr?, exitCode?, content?, version?, error?}
//
// Files: JSBASH_SANDBOX names a directory that is read and written in place.
// Otherwise JSBASH_WORKSPACE names a directory that is read from disk while
// writes stay in memory. Without either, all files are in memory.
import readline from \"node:readline\";

let library = null;
let loadError = null;
try {
  library = await import(\"just-bash\");
} catch (error) {
  loadError = error;
}

function makeBash() {
  const { Bash, OverlayFs, ReadWriteFs } = library;
  const sandbox = process.env.JSBASH_SANDBOX;
  const workspace = process.env.JSBASH_WORKSPACE;
  const options = { javascript: true };
  if (sandbox) {
    options.fs = new ReadWriteFs({ root: sandbox });
  } else if (workspace) {
    const overlay = new OverlayFs({ root: workspace });
    options.fs = overlay;
    options.cwd = overlay.getMountPoint();
  }
  return new Bash(options);
}

let bash = library ? makeBash() : null;

function parentOf(path) {
  const cut = path.lastIndexOf(\"/\");
  return cut > 0 ? path.slice(0, cut) : \"/\";
}

async function run(request) {
  const options = {};
  if (request.stdin !== undefined) options.stdin = request.stdin;
  if (request.cwd !== undefined) options.cwd = request.cwd;
  if (request.timeoutMs !== undefined) {
    options.signal = AbortSignal.timeout(request.timeoutMs);
  }
  return bash.exec(request.script, options);
}

async function serve(request) {
  if (!bash) {
    throw new Error(`just-bash is not available: ${loadError}`);
  }
  switch (request.op) {
    case \"ready\":
      return { version: \"just-bash\" };
    case \"exec\": {
      const { stdout, stderr, exitCode } = await run(request);
      return { stdout, stderr, exitCode };
    }
    case \"write\":
      await bash.fs.mkdir(parentOf(request.path), { recursive: true });
      await bash.fs.writeFile(request.path, request.content ?? \"\");
      return {};
    case \"read\":
      return { content: await bash.fs.readFile(request.path, \"utf8\") };
    case \"ls\": {
      const names = await bash.fs.readdir(request.path ?? \".\");
      return { stdout: names.join(\"\\n\") };
    }
    case \"reset\":
      bash = makeBash();
      return {};
    default:
      throw new Error(`unknown op: ${request.op}`);
  }
}

const lines = readline.createInterface({ input: process.stdin });
for await (const line of lines) {
  if (!line.trim()) continue;
  let request;
  try {
    request = JSON.parse(line);
  } catch (error) {
    console.error(`not a JSON line: ${error}`);
    continue;
  }
  let response;
  try {
    response = { id: request.id, ok: true, ...(await serve(request)) };
  } catch (error) {
    response = { id: request.id, ok: false, error: String(error?.message ?? error) };
  }
  process.stdout.write(JSON.stringify(response) + \"\\n\");
}
";

/// The package description of the sidecar, from which its dependency is installed.
pub const PACKAGE_JSON: &'static str = "{
  \"name\": \"jcode-jsbash-sidecar\",
  \"private\": true,
  \"type\": \"module\",
  \"main\": \"server.mjs\",
  \"dependencies\": {
    \"just-bash\": \"latest\"
  }
}
";

} // verus!
